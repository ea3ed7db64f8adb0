use vstd::prelude::*;
use vstd::utf8::{decode_utf8, valid_utf8};

verus! {

/// The bytes that `u8::is_ascii_whitespace` accepts: space, horizontal tab,
/// line feed, form feed and carriage return.
pub open spec fn is_space(b: u8) -> bool {
    b == 0x20 || b == 0x09 || b == 0x0a || b == 0x0c || b == 0x0d
}

/// `input` with its leading whitespace removed.
pub open spec fn skip_space(input: Seq<u8>) -> Seq<u8>
    decreases input.len(),
{
    if input.len() > 0 && is_space(input[0]) {
        skip_space(input.drop_first())
    } else {
        input
    }
}

/// The number of leading bytes of `input` that are not whitespace.
pub open spec fn word_len(input: Seq<u8>) -> nat
    decreases input.len(),
{
    if input.len() > 0 && !is_space(input[0]) {
        1 + word_len(input.drop_first())
    } else {
        0
    }
}

/// The next whitespace-delimited token of `input` (empty when only whitespace remains).
pub open spec fn next_token(input: Seq<u8>) -> Seq<u8> {
    skip_space(input).take(word_len(skip_space(input)) as int)
}

/// What remains of `input` once its next token has been read.
pub open spec fn after_token(input: Seq<u8>) -> Seq<u8> {
    skip_space(input).skip(word_len(skip_space(input)) as int)
}

/// Whether every byte of `s` is whitespace.
pub open spec fn all_space(s: Seq<u8>) -> bool {
    forall|i: int| 0 <= i < s.len() ==> is_space(#[trigger] s[i])
}

/// Whether no byte of `s` is whitespace.
pub open spec fn no_space(s: Seq<u8>) -> bool {
    forall|i: int| 0 <= i < s.len() ==> !is_space(#[trigger] s[i])
}

/// The tokens read by `n` successive token reads from `input`.
pub open spec fn read_tokens(input: Seq<u8>, n: nat) -> Seq<Seq<u8>>
    decreases n,
{
    if n == 0 {
        Seq::empty()
    } else {
        seq![next_token(input)] + read_tokens(after_token(input), (n - 1) as nat)
    }
}

/// What remains of `input` after `n` successive token reads.
pub open spec fn after_tokens(input: Seq<u8>, n: nat) -> Seq<u8>
    decreases n,
{
    if n == 0 {
        input
    } else {
        after_tokens(after_token(input), (n - 1) as nat)
    }
}

proof fn lemma_skip_space_prefix(ws: Seq<u8>, s: Seq<u8>)
    requires
        all_space(ws),
        s.len() == 0 || !is_space(s[0]),
    ensures
        skip_space(ws + s) == s,
    decreases ws.len(),
{
    if ws.len() > 0 {
        assert((ws + s)[0] == ws[0]);
        assert((ws + s).drop_first() =~= ws.drop_first() + s);
        lemma_skip_space_prefix(ws.drop_first(), s);
    } else {
        assert(ws + s =~= s);
    }
}

proof fn lemma_word_len_prefix(w: Seq<u8>, rest: Seq<u8>)
    requires
        no_space(w),
        rest.len() == 0 || is_space(rest[0]),
    ensures
        word_len(w + rest) == w.len(),
    decreases w.len(),
{
    if w.len() > 0 {
        assert((w + rest)[0] == w[0]);
        assert((w + rest).drop_first() =~= w.drop_first() + rest);
        lemma_word_len_prefix(w.drop_first(), rest);
    } else {
        assert(w + rest =~= rest);
    }
}

/// A whitespace-free word behind whitespace and before whitespace or the end of the
/// input is the next token, and what follows it is left unread.
pub proof fn word_is_next_token(ws: Seq<u8>, w: Seq<u8>, rest: Seq<u8>)
    requires
        all_space(ws),
        w.len() > 0,
        no_space(w),
        rest.len() == 0 || is_space(rest[0]),
    ensures
        next_token(ws + w + rest) == w,
        after_token(ws + w + rest) == rest,
{
    assert(ws + w + rest =~= ws + (w + rest));
    assert((w + rest)[0] == w[0]);
    lemma_skip_space_prefix(ws, w + rest);
    lemma_word_len_prefix(w, rest);
    assert((w + rest).take(w.len() as int) =~= w);
    assert((w + rest).skip(w.len() as int) =~= rest);
}

proof fn lemma_skip_space_shape(input: Seq<u8>)
    ensures
        skip_space(input).len() <= input.len(),
        skip_space(input) =~= input.skip(input.len() - skip_space(input).len()),
        all_space(input.take(input.len() - skip_space(input).len())),
        skip_space(input).len() == 0 || !is_space(skip_space(input)[0]),
    decreases input.len(),
{
    if input.len() > 0 && is_space(input[0]) {
        let t = input.drop_first();
        lemma_skip_space_shape(t);
        let k = input.len() - skip_space(input).len();
        assert(input.take(k) =~= seq![input[0]] + t.take(k - 1));
        assert forall|i: int| 0 <= i < k implies is_space(#[trigger] input.take(k)[i]) by {
            if i > 0 {
                assert(input.take(k)[i] == t.take(k - 1)[i - 1]);
            }
        }
    } else {
        assert(input.take(0) =~= Seq::<u8>::empty());
    }
}

proof fn lemma_word_len_shape(s: Seq<u8>)
    ensures
        word_len(s) <= s.len(),
        no_space(s.take(word_len(s) as int)),
        word_len(s) < s.len() ==> is_space(s[word_len(s) as int]),
    decreases s.len(),
{
    if s.len() > 0 && !is_space(s[0]) {
        let t = s.drop_first();
        lemma_word_len_shape(t);
        let k = word_len(s) as int;
        assert forall|i: int| 0 <= i < k implies !is_space(#[trigger] s.take(k)[i]) by {
            if i > 0 {
                assert(s.take(k)[i] == t.take(k - 1)[i - 1]);
            }
        }
        if k < s.len() {
            assert(s[k] == t[k - 1]);
        }
    }
}

/// The input splits into leading whitespace, the next token and what is left
/// unread: the token holds no whitespace, what is left is empty or starts with
/// whitespace, and the token is empty exactly when the input is all whitespace,
/// in which case nothing is left.
pub proof fn token_split(input: Seq<u8>)
    ensures
        ({
            let lead = input.take(input.len() - skip_space(input).len());
            &&& all_space(lead)
            &&& input =~= lead + next_token(input) + after_token(input)
        }),
        no_space(next_token(input)),
        after_token(input).len() == 0 || is_space(after_token(input)[0]),
        next_token(input).len() == 0 <==> all_space(input),
        all_space(input) ==> after_token(input).len() == 0,
        skip_space(input).len() <= input.len(),
        skip_space(input) == next_token(input) + after_token(input),
{
    lemma_skip_space_shape(input);
    let t = skip_space(input);
    lemma_word_len_shape(t);
    let k = input.len() - t.len();
    let lead = input.take(k);
    assert(t =~= t.take(word_len(t) as int) + t.skip(word_len(t) as int));
    assert(input =~= lead + t.take(word_len(t) as int) + t.skip(word_len(t) as int));
    if word_len(t) < t.len() {
        assert(after_token(input)[0] == t[word_len(t) as int]);
    }
    if all_space(input) {
        if t.len() > 0 {
            assert(t[0] == input[k]);
        }
    }
    if next_token(input).len() == 0 {
        if t.len() > 0 {
            assert(word_len(t) > 0);
        }
        assert forall|i: int| 0 <= i < input.len() implies is_space(#[trigger] input[i]) by {
            assert(input[i] == lead[i]);
        }
    }
}

fn is_space_byte(b: u8) -> (r: bool)
    ensures
        r == is_space(b),
{
    b == 0x20 || b == 0x09 || b == 0x0a || b == 0x0c || b == 0x0d
}

/// Fast scanner for whitespace-delimited input.
///
/// The scanner holds its whole input in memory and parses whitespace-delimited
/// tokens into typed values. Its view is the part of the input not read yet.
pub struct Scanner {
    buf: Vec<u8>,
    idx: usize,
}

impl Scanner {
    #[verifier::type_invariant]
    spec fn inv(self) -> bool {
        self.idx <= self.buf@.len()
    }
}

impl View for Scanner {
    type V = Seq<u8>;

    closed spec fn view(&self) -> Seq<u8> {
        self.buf@.skip(self.idx as int)
    }
}

impl Scanner {
    /// Creates a scanner over a copy of `bytes`.
    pub fn from_bytes(bytes: &[u8]) -> (r: Self)
        ensures
            r@ == bytes@,
    {
        let buf = vstd::slice::slice_to_vec(bytes);
        let r = Scanner { buf, idx: 0 };
        assert(r.buf@.skip(0) =~= bytes@);
        r
    }

    /// Returns `true` if no unread input remains.
    pub fn is_empty(&self) -> (r: bool)
        ensures
            r == (self@.len() == 0),
    {
        proof { use_type_invariant(self); }
        self.idx >= self.buf.len()
    }

    fn skip_whitespace(&mut self)
        ensures
            final(self)@ == skip_space(old(self)@),
            final(self).buf@ == old(self).buf@,
    {
        proof { use_type_invariant(&*self); }
        while self.idx < self.buf.len() && is_space_byte(self.buf[self.idx])
            invariant
                self.idx <= self.buf@.len(),
                skip_space(old(self)@) == skip_space(self@),
                self.buf@ == old(self).buf@,
            decreases self.buf@.len() - self.idx,
        {
            assert(self.buf@.skip(self.idx as int).drop_first() =~= self.buf@.skip(self.idx + 1));
            self.idx = self.idx + 1;
        }
    }

    /// Reads the next whitespace-delimited token as raw bytes.
    pub fn next_bytes(&mut self) -> (r: &[u8])
        ensures
            r@ == next_token(old(self)@),
            final(self)@ == after_token(old(self)@),
    {
        self.skip_whitespace();
        proof { use_type_invariant(&*self); }
        let ghost rest = self@;
        let start = self.idx;
        while self.idx < self.buf.len() && !is_space_byte(self.buf[self.idx])
            invariant
                start <= self.idx <= self.buf@.len(),
                self.buf@ == old(self).buf@,
                rest == self.buf@.skip(start as int),
                word_len(rest) == (self.idx - start) + word_len(self@),
            decreases self.buf@.len() - self.idx,
        {
            assert(self.buf@.skip(self.idx as int).drop_first() =~= self.buf@.skip(self.idx + 1));
            self.idx = self.idx + 1;
        }
        assert(self.buf@.subrange(start as int, self.idx as int) =~= rest.take(self.idx - start));
        assert(self@ =~= rest.skip(self.idx - start));
        vstd::slice::slice_subrange(self.buf.as_slice(), start, self.idx)
    }
}

/// Whether `b` is an ASCII decimal digit.
pub open spec fn is_digit(b: u8) -> bool {
    0x30 <= b <= 0x39
}

/// The value of the decimal numeral `s`, read most significant digit first.
pub open spec fn digits_value(s: Seq<u8>) -> nat
    decreases s.len(),
{
    if s.len() == 0 {
        0
    } else {
        digits_value(s.drop_last()) * 10 + (s.last() - 0x30) as nat
    }
}

/// The value of an unsigned integer token: `None` where the token is empty, holds a
/// byte that is not a decimal digit, or denotes a number above `u128::MAX`.
pub open spec fn unsigned_value(token: Seq<u8>) -> Option<nat> {
    if token.len() > 0 && (forall|i: int| 0 <= i < token.len() ==> is_digit(#[trigger] token[i]))
        && digits_value(token) <= u128::MAX {
        Some(digits_value(token))
    } else {
        None
    }
}

/// The value of a signed integer token: an optional `-` or `+` followed by an
/// unsigned integer token.
pub open spec fn signed_value(token: Seq<u8>) -> Option<int> {
    if token.len() > 0 && (token[0] == 0x2d || token[0] == 0x2b) {
        match unsigned_value(token.drop_first()) {
            Some(m) => Some(if token[0] == 0x2d { -m } else { m as int }),
            None => None,
        }
    } else {
        match unsigned_value(token) {
            Some(m) => Some(m as int),
            None => None,
        }
    }
}

proof fn lemma_digits_value_prefix(s: Seq<u8>, i: int, j: int)
    requires
        0 <= i <= j <= s.len(),
    ensures
        digits_value(s.take(i)) <= digits_value(s.take(j)),
    decreases j - i,
{
    if i < j {
        lemma_digits_value_prefix(s, i, j - 1);
        assert(s.take(j).drop_last() =~= s.take(j - 1));
    }
}

/// A value that can be read from a [`Scanner`].
pub trait Readable: Sized + View {
    /// What `read` takes from a scanner whose unread input is `input`: the value read
    /// and the input left unread, or `None` where `read` must not be called.
    spec fn read_spec(input: Seq<u8>) -> Option<(Self::V, Seq<u8>)>;

    /// Reads `Self` from `scan`.
    fn read(scan: &mut Scanner) -> (r: Self)
        requires
            Self::read_spec(old(scan)@) is Some,
        ensures
            Self::read_spec(old(scan)@) == Some((r@, final(scan)@)),
    ;
}

impl Scanner {
    /// Reads the next whitespace-delimited token as a typed value.
    pub fn next<T: Readable>(&mut self) -> (r: T)
        requires
            T::read_spec(old(self)@) is Some,
        ensures
            T::read_spec(old(self)@) == Some((r@, final(self)@)),
    {
        T::read(self)
    }

    fn parse_u128_digits(token: &[u8]) -> (r: u128)
        requires
            unsigned_value(token@) is Some,
        ensures
            r == digits_value(token@),
    {
        let mut value: u128 = 0;
        let mut i: usize = 0;
        while i < token.len()
            invariant
                0 <= i <= token@.len(),
                unsigned_value(token@) is Some,
                value == digits_value(token@.take(i as int)),
            decreases token@.len() - i,
        {
            proof {
                lemma_digits_value_prefix(token@, i + 1, token@.len() as int);
                assert(token@.take(token@.len() as int) =~= token@);
                assert(token@.take(i + 1).drop_last() =~= token@.take(i as int));
                assert(is_digit(token@[i as int]));
            }
            let digit = (token[i] - 0x30) as u128;
            value = value * 10 + digit;
            i = i + 1;
        }
        assert(token@.take(i as int) =~= token@);
        value
    }

    /// Parses an unsigned integer token for a type whose largest value is `max`.
    fn parse_unsigned(token: &[u8], max: u128) -> (r: u128)
        requires
            unsigned_value(token@) matches Some(v) && v <= max,
        ensures
            r == digits_value(token@),
    {
        Self::parse_u128_digits(token)
    }

    /// Parses a signed integer token for a type whose values range from `min` to `max`.
    fn parse_signed(token: &[u8], min: i128, max: i128) -> (r: i128)
        requires
            0 <= max,
            min == -max - 1,
            signed_value(token@) matches Some(v) && min <= v <= max,
        ensures
            signed_value(token@) == Some(r as int),
    {
        let negative: bool;
        let digits: &[u8];
        if token[0] == 0x2d {
            negative = true;
            digits = vstd::slice::slice_subrange(token, 1, token.len());
        } else if token[0] == 0x2b {
            negative = false;
            digits = vstd::slice::slice_subrange(token, 1, token.len());
        } else {
            negative = false;
            digits = token;
        }
        assert(token@.len() > 0 && (token@[0] == 0x2d || token@[0] == 0x2b) ==> digits@ =~= token@.drop_first());
        let magnitude = Self::parse_u128_digits(digits);
        if negative {
            if magnitude == (max as u128) + 1 {
                min
            } else {
                -(magnitude as i128)
            }
        } else {
            magnitude as i128
        }
    }
}

fn bytes_eq(a: &[u8], b: &[u8]) -> (r: bool)
    ensures
        r == (a@ == b@),
{
    if a.len() != b.len() {
        return false;
    }
    let mut i: usize = 0;
    while i < a.len()
        invariant
            0 <= i <= a@.len(),
            a@.len() == b@.len(),
            a@.take(i as int) == b@.take(i as int),
        decreases a@.len() - i,
    {
        if a[i] != b[i] {
            assert(a@[i as int] != b@[i as int]);
            return false;
        }
        assert(a@.take(i + 1) =~= a@.take(i as int).push(a@[i as int]));
        assert(b@.take(i + 1) =~= b@.take(i as int).push(b@[i as int]));
        i = i + 1;
    }
    assert(a@ =~= a@.take(i as int));
    assert(b@ =~= b@.take(i as int));
    true
}

/// The bytes of the word `true`.
pub open spec fn word_true() -> Seq<u8> {
    seq![0x74u8, 0x72, 0x75, 0x65]
}

/// The bytes of the word `false`.
pub open spec fn word_false() -> Seq<u8> {
    seq![0x66u8, 0x61, 0x6c, 0x73, 0x65]
}

/// The value of a boolean token: `true` or `1` is true, `false` or `0` is false.
pub open spec fn bool_value(token: Seq<u8>) -> Option<bool> {
    if token == word_true() || token == seq![0x31u8] {
        Some(true)
    } else if token == word_false() || token == seq![0x30u8] {
        Some(false)
    } else {
        None
    }
}

/// `String::from_utf8`: by its documentation it returns the string whose UTF-8
/// encoding is `bytes` where `bytes` is valid UTF-8, and an error otherwise.
#[verifier::external_body]
fn string_from_utf8(bytes: Vec<u8>) -> (r: Option<String>)
    ensures
        r is Some <==> valid_utf8(bytes@),
        r matches Some(s) ==> s@ == decode_utf8(bytes@),
{
    String::from_utf8(bytes).ok()
}

impl Readable for u32 {
    open spec fn read_spec(input: Seq<u8>) -> Option<(u32, Seq<u8>)> {
        match unsigned_value(next_token(input)) {
            Some(v) if v <= u32::MAX => Some((v as u32, after_token(input))),
            _ => None,
        }
    }

    fn read(scan: &mut Scanner) -> (r: u32) {
        Scanner::parse_unsigned(scan.next_bytes(), u32::MAX as u128) as u32
    }
}

impl Readable for u64 {
    open spec fn read_spec(input: Seq<u8>) -> Option<(u64, Seq<u8>)> {
        match unsigned_value(next_token(input)) {
            Some(v) if v <= u64::MAX => Some((v as u64, after_token(input))),
            _ => None,
        }
    }

    fn read(scan: &mut Scanner) -> (r: u64) {
        Scanner::parse_unsigned(scan.next_bytes(), u64::MAX as u128) as u64
    }
}

impl Readable for u128 {
    open spec fn read_spec(input: Seq<u8>) -> Option<(u128, Seq<u8>)> {
        match unsigned_value(next_token(input)) {
            Some(v) => Some((v as u128, after_token(input))),
            None => None,
        }
    }

    fn read(scan: &mut Scanner) -> (r: u128) {
        Scanner::parse_unsigned(scan.next_bytes(), u128::MAX)
    }
}

impl Readable for usize {
    open spec fn read_spec(input: Seq<u8>) -> Option<(usize, Seq<u8>)> {
        match unsigned_value(next_token(input)) {
            Some(v) if v <= usize::MAX => Some((v as usize, after_token(input))),
            _ => None,
        }
    }

    fn read(scan: &mut Scanner) -> (r: usize) {
        Scanner::parse_unsigned(scan.next_bytes(), usize::MAX as u128) as usize
    }
}

impl Readable for i32 {
    open spec fn read_spec(input: Seq<u8>) -> Option<(i32, Seq<u8>)> {
        match signed_value(next_token(input)) {
            Some(v) if i32::MIN <= v <= i32::MAX => Some((v as i32, after_token(input))),
            _ => None,
        }
    }

    fn read(scan: &mut Scanner) -> (r: i32) {
        Scanner::parse_signed(scan.next_bytes(), i32::MIN as i128, i32::MAX as i128) as i32
    }
}

impl Readable for i64 {
    open spec fn read_spec(input: Seq<u8>) -> Option<(i64, Seq<u8>)> {
        match signed_value(next_token(input)) {
            Some(v) if i64::MIN <= v <= i64::MAX => Some((v as i64, after_token(input))),
            _ => None,
        }
    }

    fn read(scan: &mut Scanner) -> (r: i64) {
        Scanner::parse_signed(scan.next_bytes(), i64::MIN as i128, i64::MAX as i128) as i64
    }
}

impl Readable for i128 {
    open spec fn read_spec(input: Seq<u8>) -> Option<(i128, Seq<u8>)> {
        match signed_value(next_token(input)) {
            Some(v) if i128::MIN <= v <= i128::MAX => Some((v as i128, after_token(input))),
            _ => None,
        }
    }

    fn read(scan: &mut Scanner) -> (r: i128) {
        Scanner::parse_signed(scan.next_bytes(), i128::MIN, i128::MAX)
    }
}

impl Readable for isize {
    open spec fn read_spec(input: Seq<u8>) -> Option<(isize, Seq<u8>)> {
        match signed_value(next_token(input)) {
            Some(v) if isize::MIN <= v <= isize::MAX => Some((v as isize, after_token(input))),
            _ => None,
        }
    }

    fn read(scan: &mut Scanner) -> (r: isize) {
        Scanner::parse_signed(scan.next_bytes(), isize::MIN as i128, isize::MAX as i128) as isize
    }
}

impl Readable for bool {
    open spec fn read_spec(input: Seq<u8>) -> Option<(bool, Seq<u8>)> {
        match bool_value(next_token(input)) {
            Some(b) => Some((b, after_token(input))),
            None => None,
        }
    }

    fn read(scan: &mut Scanner) -> (r: bool) {
        let token = scan.next_bytes();
        // By the contract the token is one of `true`, `1`, `false` and `0`.
        let word = [0x74u8, 0x72, 0x75, 0x65];
        let one = [0x31u8];
        assert(word@ =~= word_true());
        assert(one@ =~= seq![0x31u8]);
        bytes_eq(token, word.as_slice()) || bytes_eq(token, one.as_slice())
    }
}

impl Readable for String {
    open spec fn read_spec(input: Seq<u8>) -> Option<(Seq<char>, Seq<u8>)> {
        if valid_utf8(next_token(input)) {
            Some((decode_utf8(next_token(input)), after_token(input)))
        } else {
            None
        }
    }

    fn read(scan: &mut Scanner) -> (r: String) {
        let token = scan.next_bytes();
        string_from_utf8(vstd::slice::slice_to_vec(token)).unwrap()
    }
}

impl Readable for Vec<u8> {
    open spec fn read_spec(input: Seq<u8>) -> Option<(Seq<u8>, Seq<u8>)> {
        Some((next_token(input), after_token(input)))
    }

    fn read(scan: &mut Scanner) -> (r: Vec<u8>) {
        vstd::slice::slice_to_vec(scan.next_bytes())
    }
}

} // verus!

