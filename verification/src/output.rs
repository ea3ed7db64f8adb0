use vstd::prelude::*;
use vstd::utf8::encode_utf8;

verus! {

/// What an [`OutputBuffer`] holds: the bytes written so far, the delimiter that is
/// written between tokens, and whether the next token must be preceded by it.
pub struct OutputState {
    pub bytes: Seq<u8>,
    pub delimiter: Option<Seq<u8>>,
    pub needs_delimiter: bool,
}

impl OutputState {
    /// The state with `more` appended to the bytes, with no delimiter and no
    /// change to the delimiter state.
    pub open spec fn appended(self, more: Seq<u8>) -> OutputState {
        OutputState { bytes: self.bytes + more, ..self }
    }

    /// The bytes written before a token in this state: the delimiter, where one is
    /// set and a token has been pushed since the start or the last line break.
    pub open spec fn separator(self) -> Seq<u8> {
        if self.needs_delimiter {
            match self.delimiter {
                Some(d) => d,
                None => Seq::empty(),
            }
        } else {
            Seq::empty()
        }
    }

    /// The state after pushing `token`: the separator, then the token, after
    /// which the next token needs the delimiter.
    pub open spec fn pushed(self, token: Seq<u8>) -> OutputState {
        OutputState {
            bytes: self.bytes + self.separator() + token,
            needs_delimiter: true,
            ..self
        }
    }
}

/// The decimal numeral of `n`, most significant digit first, without leading zeros.
pub open spec fn decimal(n: nat) -> Seq<u8>
    decreases n,
{
    if n < 10 {
        seq![(0x30 + n) as u8]
    } else {
        decimal(n / 10).push((0x30 + n % 10) as u8)
    }
}

/// The decimal numeral of `i`, with a leading `-` where `i` is negative.
pub open spec fn signed_decimal(i: int) -> Seq<u8> {
    if i < 0 {
        seq![0x2du8] + decimal((-i) as nat)
    } else {
        decimal(i as nat)
    }
}

/// `tokens` with `sep` between each two of them.
pub open spec fn join(tokens: Seq<Seq<u8>>, sep: Seq<u8>) -> Seq<u8>
    decreases tokens.len(),
{
    if tokens.len() == 0 {
        Seq::empty()
    } else if tokens.len() == 1 {
        tokens[0]
    } else {
        tokens[0] + sep + join(tokens.drop_first(), sep)
    }
}

/// The state after pushing each of `tokens` in turn, starting from `out`.
pub open spec fn push_all(out: OutputState, tokens: Seq<Seq<u8>>) -> OutputState
    decreases tokens.len(),
{
    if tokens.len() == 0 {
        out
    } else {
        push_all(out.pushed(tokens[0]), tokens.drop_first())
    }
}

/// With a delimiter set, pushed tokens come out joined by it: the delimiter stands
/// before each token but the first, and before the first only where a token was
/// pushed since the start or the last line break.
pub proof fn pushed_tokens_are_joined(out: OutputState, tokens: Seq<Seq<u8>>, d: Seq<u8>)
    requires
        out.delimiter == Some(d),
        tokens.len() > 0,
    ensures
        push_all(out, tokens).bytes == out.bytes + out.separator() + join(tokens, d),
        push_all(out, tokens).delimiter == Some(d),
        push_all(out, tokens).needs_delimiter,
    decreases tokens.len(),
{
    let next = out.pushed(tokens[0]);
    if tokens.len() == 1 {
        assert(push_all(next, tokens.drop_first()) == next);
    } else {
        pushed_tokens_are_joined(next, tokens.drop_first(), d);
        assert(next.separator() == d);
        assert(push_all(out, tokens).bytes =~= out.bytes + out.separator() + join(tokens, d));
    }
}

/// After a line break the next token is written right after the newline, with no
/// delimiter before it.
pub proof fn endl_resets_delimiter(out: OutputState, token: Seq<u8>)
    ensures
        (OutputState { needs_delimiter: false, ..out.appended(seq![0x0au8]) }).pushed(token).bytes
            == out.bytes + seq![0x0au8] + token,
{
    assert((OutputState { needs_delimiter: false, ..out.appended(seq![0x0au8]) }).pushed(token).bytes
        =~= out.bytes + seq![0x0au8] + token);
}

/// Fast-buffered output.
///
/// Values are pushed through the [`Writable`] trait into an internal byte buffer,
/// which [`OutputBuffer::into_bytes`] hands out once the output is complete.
pub struct OutputBuffer {
    buf: Vec<u8>,
    delimiter: Option<Vec<u8>>,
    needs_delimiter: bool,
}

impl View for OutputBuffer {
    type V = OutputState;

    closed spec fn view(&self) -> OutputState {
        OutputState {
            bytes: self.buf@,
            delimiter: match self.delimiter {
                Some(d) => Some(d@),
                None => None,
            },
            needs_delimiter: self.needs_delimiter,
        }
    }
}

/// A value that can write itself into an [`OutputBuffer`].
pub trait Writable: Sized {
    /// The state of an output buffer in state `out` once `self` is written into it.
    spec fn write_spec(self, out: OutputState) -> OutputState;

    /// Writes `self` into `out`.
    fn write_to(self, out: &mut OutputBuffer)
        ensures
            final(out)@ == self.write_spec(old(out)@),
    ;
}

impl OutputBuffer {
    /// Creates an empty output buffer with a default capacity of 1 MiB.
    pub fn new() -> (r: Self)
        ensures
            r@ == (OutputState { bytes: Seq::empty(), delimiter: None, needs_delimiter: false }),
    {
        Self::with_capacity(1 << 20)
    }

    /// Creates an empty output buffer with the specified capacity.
    pub fn with_capacity(capacity: usize) -> (r: Self)
        ensures
            r@ == (OutputState { bytes: Seq::empty(), delimiter: None, needs_delimiter: false }),
    {
        OutputBuffer { buf: Vec::with_capacity(capacity), delimiter: None, needs_delimiter: false }
    }

    /// Pushes a value.
    pub fn push<T: Writable>(&mut self, value: T)
        ensures
            final(self)@ == value.write_spec(old(self)@),
    {
        value.write_to(self);
    }

    /// Pushes raw bytes as a token, preceded by the delimiter where one is due.
    pub fn push_bytes(&mut self, bytes: &[u8])
        ensures
            final(self)@ == old(self)@.pushed(bytes@),
    {
        self.write_delimiter();
        self.append_bytes(bytes);
        self.needs_delimiter = true;
    }

    /// Pushes UTF-8 text as a token.
    pub fn push_str(&mut self, value: &str)
        ensures
            final(self)@ == old(self)@.pushed(encode_utf8(value@)),
    {
        self.push_bytes(value.as_bytes());
    }

    /// Sets a delimiter that is written before each pushed token after the first.
    ///
    /// Use [`OutputBuffer::endl`] to terminate a line without writing a delimiter
    /// before the newline.
    pub fn set_delimiter(&mut self, delimiter: &[u8])
        ensures
            final(self)@ == (OutputState { delimiter: Some(delimiter@), ..old(self)@ }),
    {
        self.delimiter = Some(vstd::slice::slice_to_vec(delimiter));
    }

    /// Clears the current delimiter.
    pub fn clear_delimiter(&mut self)
        ensures
            final(self)@ == (OutputState { delimiter: None, needs_delimiter: false, ..old(self)@ }),
    {
        self.delimiter = None;
        self.needs_delimiter = false;
    }

    /// Pushes a newline; the next token is written without a delimiter before it.
    pub fn endl(&mut self)
        ensures
            final(self)@ == (OutputState { needs_delimiter: false, ..old(self)@.appended(seq![0x0au8]) }),
    {
        self.write_byte(0x0a);
        self.needs_delimiter = false;
    }

    /// Consumes the output and returns the underlying byte buffer.
    pub fn into_bytes(self) -> (r: Vec<u8>)
        ensures
            r@ == self@.bytes,
    {
        self.buf
    }

    /// Returns `true` if the output buffer is empty.
    pub fn is_empty(&self) -> (r: bool)
        ensures
            r == (self@.bytes.len() == 0),
    {
        self.buf.len() == 0
    }

    fn write_byte(&mut self, byte: u8)
        ensures
            final(self)@ == old(self)@.appended(seq![byte]),
    {
        self.buf.push(byte);
        assert(self.buf@ =~= old(self).buf@ + seq![byte]);
    }

    fn write_u64(&mut self, value: u64)
        ensures
            final(self)@ == old(self)@.appended(decimal(value as nat)),
    {
        self.write_u128(value as u128);
    }

    fn write_u128(&mut self, value: u128)
        ensures
            final(self)@ == old(self)@.appended(decimal(value as nat)),
    {
        if value == 0 {
            self.write_byte(0x30);
            return;
        }
        let mut digits: Vec<u8> = Vec::new();
        let mut v = value;
        while v > 0
            invariant
                v > 0 ==> decimal(value as nat) == decimal(v as nat) + digits@,
                v == 0 ==> decimal(value as nat) == digits@,
            decreases v,
        {
            let ghost rest = digits@;
            digits.insert(0, (0x30 + v % 10) as u8);
            proof {
                if v >= 10 {
                    assert(decimal(v as nat) == decimal((v / 10) as nat).push((0x30 + v % 10) as u8));
                    assert(decimal(v as nat) + rest =~= decimal((v / 10) as nat) + digits@);
                } else {
                    assert(decimal(v as nat) + rest =~= digits@);
                }
            }
            v = v / 10;
        }
        self.buf.append(&mut digits);
    }

    fn write_i128(&mut self, value: i128)
        ensures
            final(self)@ == old(self)@.appended(signed_decimal(value as int)),
    {
        if value < 0 {
            self.write_byte(0x2d);
            let magnitude = (-(value + 1)) as u128 + 1;
            self.write_u128(magnitude);
            assert(old(self)@.bytes + signed_decimal(value as int) =~= old(self)@.bytes + seq![0x2du8] + decimal(magnitude as nat));
        } else {
            self.write_u128(value as u128);
        }
    }

    fn write_delimiter(&mut self)
        ensures
            final(self)@ == old(self)@.appended(old(self)@.separator()),
    {
        if self.needs_delimiter {
            if let Some(delimiter) = &self.delimiter {
                self.buf.extend_from_slice(delimiter.as_slice());
                assert(self.buf@ =~= old(self).buf@ + delimiter@);
            }
        }
    }

    fn append_bytes(&mut self, bytes: &[u8])
        ensures
            final(self)@ == old(self)@.appended(bytes@),
    {
        self.buf.extend_from_slice(bytes);
        assert(self.buf@ =~= old(self).buf@ + bytes@);
    }
}

impl Default for OutputBuffer {
    fn default() -> (r: Self)
        ensures
            r@ == (OutputState { bytes: Seq::empty(), delimiter: None, needs_delimiter: false }),
    {
        Self::new()
    }
}

/// `core::fmt::Error`, the error of a formatter.
#[verifier::external_type_specification]
#[verifier::external_body]
pub struct ExFmtError(core::fmt::Error);

impl core::fmt::Write for OutputBuffer {
    fn write_str(&mut self, s: &str) -> (r: core::fmt::Result)
        ensures
            final(self)@ == old(self)@.appended(encode_utf8(s@)),
            r is Ok,
    {
        self.append_bytes(s.as_bytes());
        Ok(())
    }
}

impl Writable for u64 {
    open spec fn write_spec(self, out: OutputState) -> OutputState {
        out.pushed(decimal(self as nat))
    }

    fn write_to(self, out: &mut OutputBuffer) {
        out.write_delimiter();
        out.write_u64(self);
        out.needs_delimiter = true;
    }
}

impl Writable for u32 {
    open spec fn write_spec(self, out: OutputState) -> OutputState {
        out.pushed(decimal(self as nat))
    }

    fn write_to(self, out: &mut OutputBuffer) {
        out.write_delimiter();
        out.write_u64(self as u64);
        out.needs_delimiter = true;
    }
}

impl Writable for u128 {
    open spec fn write_spec(self, out: OutputState) -> OutputState {
        out.pushed(decimal(self as nat))
    }

    fn write_to(self, out: &mut OutputBuffer) {
        out.write_delimiter();
        out.write_u128(self);
        out.needs_delimiter = true;
    }
}

impl Writable for usize {
    open spec fn write_spec(self, out: OutputState) -> OutputState {
        out.pushed(decimal(self as nat))
    }

    fn write_to(self, out: &mut OutputBuffer) {
        out.write_delimiter();
        out.write_u128(self as u128);
        out.needs_delimiter = true;
    }
}

impl Writable for i64 {
    open spec fn write_spec(self, out: OutputState) -> OutputState {
        out.pushed(signed_decimal(self as int))
    }

    fn write_to(self, out: &mut OutputBuffer) {
        out.write_delimiter();
        out.write_i128(self as i128);
        out.needs_delimiter = true;
    }
}

impl Writable for i32 {
    open spec fn write_spec(self, out: OutputState) -> OutputState {
        out.pushed(signed_decimal(self as int))
    }

    fn write_to(self, out: &mut OutputBuffer) {
        out.write_delimiter();
        out.write_i128(self as i128);
        out.needs_delimiter = true;
    }
}

impl Writable for i128 {
    open spec fn write_spec(self, out: OutputState) -> OutputState {
        out.pushed(signed_decimal(self as int))
    }

    fn write_to(self, out: &mut OutputBuffer) {
        out.write_delimiter();
        out.write_i128(self);
        out.needs_delimiter = true;
    }
}

impl Writable for isize {
    open spec fn write_spec(self, out: OutputState) -> OutputState {
        out.pushed(signed_decimal(self as int))
    }

    fn write_to(self, out: &mut OutputBuffer) {
        out.write_delimiter();
        out.write_i128(self as i128);
        out.needs_delimiter = true;
    }
}

/// The bytes written for a boolean: `true` or `false`.
pub open spec fn bool_text(b: bool) -> Seq<u8> {
    if b {
        seq![0x74u8, 0x72, 0x75, 0x65]
    } else {
        seq![0x66u8, 0x61, 0x6c, 0x73, 0x65]
    }
}

impl Writable for bool {
    open spec fn write_spec(self, out: OutputState) -> OutputState {
        out.pushed(bool_text(self))
    }

    fn write_to(self, out: &mut OutputBuffer) {
        if self {
            let word = [0x74u8, 0x72, 0x75, 0x65];
            assert(word@ =~= bool_text(true));
            out.push_bytes(word.as_slice());
        } else {
            let word = [0x66u8, 0x61, 0x6c, 0x73, 0x65];
            assert(word@ =~= bool_text(false));
            out.push_bytes(word.as_slice());
        }
    }
}

impl<'a> Writable for &'a [u8] {
    open spec fn write_spec(self, out: OutputState) -> OutputState {
        out.pushed(self@)
    }

    fn write_to(self, out: &mut OutputBuffer) {
        out.push_bytes(self);
    }
}

impl<'a, const N: usize> Writable for &'a [u8; N] {
    open spec fn write_spec(self, out: OutputState) -> OutputState {
        out.pushed(self@)
    }

    fn write_to(self, out: &mut OutputBuffer) {
        out.push_bytes(self.as_slice());
    }
}

impl<'a> Writable for &'a str {
    open spec fn write_spec(self, out: OutputState) -> OutputState {
        out.pushed(encode_utf8(self@))
    }

    fn write_to(self, out: &mut OutputBuffer) {
        out.push_str(self);
    }
}

} // verus!
