//! What the scanner reads back of what the output buffer writes.
use vstd::prelude::*;

use crate::output::{decimal, join, push_all, signed_decimal, OutputState, Writable};
use crate::scanner::{
    after_token, after_tokens, all_space, digits_value, is_digit, is_space, next_token,
    no_space, read_tokens, signed_value, unsigned_value, word_is_next_token, Readable,
};

verus! {

/// The decimal numeral of `n` is a non-empty run of digits whose value is `n`.
pub proof fn decimal_is_numeral(n: nat)
    ensures
        decimal(n).len() > 0,
        forall|i: int| 0 <= i < decimal(n).len() ==> is_digit(#[trigger] decimal(n)[i]),
        digits_value(decimal(n)) == n,
        n == 0 ==> decimal(n) == seq![0x30u8],
        n > 0 ==> decimal(n)[0] != 0x30u8,
    decreases n,
{
    if n < 10 {
        assert(n == 0 ==> decimal(n) =~= seq![0x30u8]);
        assert(decimal(n).drop_last() =~= Seq::<u8>::empty());
        assert(decimal(n).last() == (0x30 + n) as u8);
        assert(((0x30 + n) as u8) as int == 0x30 + n);
        assert(digits_value(Seq::<u8>::empty()) == 0);
    } else {
        decimal_is_numeral(n / 10);
        assert(decimal(n).drop_last() =~= decimal(n / 10));
        assert(decimal(n)[0] == decimal(n / 10)[0]);
        assert(decimal(n).last() == (0x30 + n % 10) as u8);
        assert(((0x30 + n % 10) as u8) as int == 0x30 + n % 10);
        assert((n / 10) * 10 + n % 10 == n);
    }
}

/// An unsigned integer of at most 128 bits reads back from its decimal numeral.
pub proof fn unsigned_reads_back(n: nat)
    requires
        n <= u128::MAX,
    ensures
        unsigned_value(decimal(n)) == Some(n),
{
    decimal_is_numeral(n);
}

/// A signed integer of at most 128 bits reads back from its decimal numeral.
pub proof fn signed_reads_back(i: int)
    requires
        i128::MIN <= i <= i128::MAX,
    ensures
        signed_value(signed_decimal(i)) == Some(i),
        i >= 0 ==> signed_decimal(i) == decimal(i as nat),
        i < 0 ==> signed_decimal(i) == seq![0x2du8] + decimal((-i) as nat),
{
    if i < 0 {
        let m = (-i) as nat;
        decimal_is_numeral(m);
        assert(signed_decimal(i).drop_first() =~= decimal(m));
    } else {
        decimal_is_numeral(i as nat);
        assert(is_digit(decimal(i as nat)[0]));
    }
}

proof fn lemma_numeral_no_space(s: Seq<u8>)
    requires
        forall|i: int| 0 <= i < s.len() ==> is_digit(#[trigger] s[i]),
    ensures
        no_space(s),
{
    assert forall|i: int| 0 <= i < s.len() implies !is_space(#[trigger] s[i]) by {
        assert(is_digit(s[i]));
    }
}

proof fn lemma_signed_numeral_token(ws: Seq<u8>, i: int, rest: Seq<u8>)
    requires
        all_space(ws),
        i128::MIN <= i <= i128::MAX,
        rest.len() == 0 || is_space(rest[0]),
    ensures
        next_token(ws + signed_decimal(i) + rest) == signed_decimal(i),
        after_token(ws + signed_decimal(i) + rest) == rest,
        signed_value(signed_decimal(i)) == Some(i),
{
    signed_reads_back(i);
    let m = if i < 0 { (-i) as nat } else { i as nat };
    decimal_is_numeral(m);
    lemma_numeral_no_space(decimal(m));
    let s = signed_decimal(i);
    assert forall|k: int| 0 <= k < s.len() implies !is_space(#[trigger] s[k]) by {
        if i < 0 && k > 0 {
            assert(s[k] == decimal(m)[k - 1]);
        }
    }
    word_is_next_token(ws, s, rest);
}

proof fn lemma_unsigned_numeral_token(ws: Seq<u8>, n: nat, rest: Seq<u8>)
    requires
        all_space(ws),
        n <= u128::MAX,
        rest.len() == 0 || is_space(rest[0]),
    ensures
        next_token(ws + decimal(n) + rest) == decimal(n),
        after_token(ws + decimal(n) + rest) == rest,
        unsigned_value(decimal(n)) == Some(n),
{
    unsigned_reads_back(n);
    decimal_is_numeral(n);
    lemma_numeral_no_space(decimal(n));
    word_is_next_token(ws, decimal(n), rest);
}

/// What writing `v` into `out` appends to its bytes.
pub open spec fn written<T: Writable>(v: T, out: OutputState) -> Seq<u8> {
    v.write_spec(out).bytes.skip(out.bytes.len() as int)
}

/// A `u32` pushed into a buffer where no delimiter is due, or a whitespace one, reads back as
/// itself, where what follows it is whitespace or nothing.
pub proof fn u32_reads_back(v: u32, out: OutputState, rest: Seq<u8>)
    requires
        all_space(out.separator()),
        rest.len() == 0 || is_space(rest[0]),
    ensures
        <u32 as Readable>::read_spec(written(v, out) + rest) == Some((v, rest)),
{
    assert(written(v, out) =~= out.separator() + decimal(v as nat));
    lemma_unsigned_numeral_token(out.separator(), v as nat, rest);
}

/// A `u64` pushed into a buffer where no delimiter is due, or a whitespace one, reads back as
/// itself, where what follows it is whitespace or nothing.
pub proof fn u64_reads_back(v: u64, out: OutputState, rest: Seq<u8>)
    requires
        all_space(out.separator()),
        rest.len() == 0 || is_space(rest[0]),
    ensures
        <u64 as Readable>::read_spec(written(v, out) + rest) == Some((v, rest)),
{
    assert(written(v, out) =~= out.separator() + decimal(v as nat));
    lemma_unsigned_numeral_token(out.separator(), v as nat, rest);
}

/// A `u128` pushed into a buffer where no delimiter is due, or a whitespace one, reads back as
/// itself, where what follows it is whitespace or nothing.
pub proof fn u128_reads_back(v: u128, out: OutputState, rest: Seq<u8>)
    requires
        all_space(out.separator()),
        rest.len() == 0 || is_space(rest[0]),
    ensures
        <u128 as Readable>::read_spec(written(v, out) + rest) == Some((v, rest)),
{
    assert(written(v, out) =~= out.separator() + decimal(v as nat));
    lemma_unsigned_numeral_token(out.separator(), v as nat, rest);
}

/// A `usize` pushed into a buffer where no delimiter is due, or a whitespace one, reads back as
/// itself, where what follows it is whitespace or nothing.
pub proof fn usize_reads_back(v: usize, out: OutputState, rest: Seq<u8>)
    requires
        all_space(out.separator()),
        rest.len() == 0 || is_space(rest[0]),
    ensures
        <usize as Readable>::read_spec(written(v, out) + rest) == Some((v, rest)),
{
    assert(written(v, out) =~= out.separator() + decimal(v as nat));
    lemma_unsigned_numeral_token(out.separator(), v as nat, rest);
}

/// An `i32` pushed into a buffer where no delimiter is due, or a whitespace one, reads back as
/// itself, where what follows it is whitespace or nothing.
pub proof fn i32_reads_back(v: i32, out: OutputState, rest: Seq<u8>)
    requires
        all_space(out.separator()),
        rest.len() == 0 || is_space(rest[0]),
    ensures
        <i32 as Readable>::read_spec(written(v, out) + rest) == Some((v, rest)),
{
    assert(written(v, out) =~= out.separator() + signed_decimal(v as int));
    lemma_signed_numeral_token(out.separator(), v as int, rest);
}

/// An `i64` pushed into a buffer where no delimiter is due, or a whitespace one, reads back as
/// itself, where what follows it is whitespace or nothing.
pub proof fn i64_reads_back(v: i64, out: OutputState, rest: Seq<u8>)
    requires
        all_space(out.separator()),
        rest.len() == 0 || is_space(rest[0]),
    ensures
        <i64 as Readable>::read_spec(written(v, out) + rest) == Some((v, rest)),
{
    assert(written(v, out) =~= out.separator() + signed_decimal(v as int));
    lemma_signed_numeral_token(out.separator(), v as int, rest);
}

/// An `i128` pushed into a buffer where no delimiter is due, or a whitespace one, reads back as
/// itself, where what follows it is whitespace or nothing.
pub proof fn i128_reads_back(v: i128, out: OutputState, rest: Seq<u8>)
    requires
        all_space(out.separator()),
        rest.len() == 0 || is_space(rest[0]),
    ensures
        <i128 as Readable>::read_spec(written(v, out) + rest) == Some((v, rest)),
{
    assert(written(v, out) =~= out.separator() + signed_decimal(v as int));
    lemma_signed_numeral_token(out.separator(), v as int, rest);
}

/// An `isize` pushed into a buffer where no delimiter is due, or a whitespace one, reads back as
/// itself, where what follows it is whitespace or nothing.
pub proof fn isize_reads_back(v: isize, out: OutputState, rest: Seq<u8>)
    requires
        all_space(out.separator()),
        rest.len() == 0 || is_space(rest[0]),
    ensures
        <isize as Readable>::read_spec(written(v, out) + rest) == Some((v, rest)),
{
    assert(written(v, out) =~= out.separator() + signed_decimal(v as int));
    lemma_signed_numeral_token(out.separator(), v as int, rest);
}

/// A `bool` pushed into a buffer where no delimiter is due, or a whitespace one, reads back as itself,
/// where what follows it is whitespace or nothing.
pub proof fn bool_reads_back(v: bool, out: OutputState, rest: Seq<u8>)
    requires
        all_space(out.separator()),
        rest.len() == 0 || is_space(rest[0]),
    ensures
        <bool as Readable>::read_spec(written(v, out) + rest) == Some((v, rest)),
{
    let text = crate::output::bool_text(v);
    assert(written(v, out) =~= out.separator() + text);
    assert(no_space(text));
    word_is_next_token(out.separator(), text, rest);
}

proof fn lemma_read_joined(ws: Seq<u8>, tokens: Seq<Seq<u8>>, sep: Seq<u8>)
    requires
        all_space(ws),
        sep.len() > 0,
        all_space(sep),
        tokens.len() > 0,
        forall|i: int| 0 <= i < tokens.len() ==> #[trigger] tokens[i].len() > 0 && no_space(tokens[i]),
    ensures
        read_tokens(ws + join(tokens, sep), tokens.len()) == tokens,
        after_tokens(ws + join(tokens, sep), tokens.len()).len() == 0,
    decreases tokens.len(),
{
    let first = tokens[0];
    assert(first.len() > 0 && no_space(first));
    if tokens.len() == 1 {
        assert(ws + join(tokens, sep) =~= ws + first + Seq::<u8>::empty());
        word_is_next_token(ws, first, Seq::empty());
        assert(read_tokens(Seq::<u8>::empty(), 0) =~= Seq::<Seq<u8>>::empty());
        assert(read_tokens(ws + join(tokens, sep), 1) =~= tokens);
        assert(after_tokens(Seq::<u8>::empty(), 0).len() == 0);
    } else {
        let tail = tokens.drop_first();
        let rest = sep + join(tail, sep);
        assert(ws + join(tokens, sep) =~= ws + first + rest);
        assert(rest[0] == sep[0]);
        word_is_next_token(ws, first, rest);
        assert forall|i: int| 0 <= i < tail.len() implies #[trigger] tail[i].len() > 0 && no_space(tail[i]) by {
            assert(tail[i] == tokens[i + 1]);
        }
        lemma_read_joined(sep, tail, sep);
        assert(read_tokens(ws + join(tokens, sep), tokens.len()) =~= seq![first] + tail);
        assert(tokens =~= seq![first] + tail);
    }
}

/// Tokens pushed into a fresh buffer whose delimiter is whitespace come back, in
/// order, from as many token reads of its bytes, after which no input is left;
/// provided each token is non-empty and holds no whitespace.
pub proof fn pushed_tokens_read_back(tokens: Seq<Seq<u8>>, sep: Seq<u8>)
    requires
        sep.len() > 0,
        all_space(sep),
        tokens.len() > 0,
        forall|i: int| 0 <= i < tokens.len() ==> #[trigger] tokens[i].len() > 0 && no_space(tokens[i]),
    ensures
        ({
            let fresh = OutputState { bytes: Seq::empty(), delimiter: Some(sep), needs_delimiter: false };
            let bytes = push_all(fresh, tokens).bytes;
            &&& read_tokens(bytes, tokens.len()) == tokens
            &&& after_tokens(bytes, tokens.len()).len() == 0
        }),
{
    let fresh = OutputState { bytes: Seq::empty(), delimiter: Some(sep), needs_delimiter: false };
    crate::output::pushed_tokens_are_joined(fresh, tokens, sep);
    assert(push_all(fresh, tokens).bytes =~= Seq::<u8>::empty() + join(tokens, sep));
    lemma_read_joined(Seq::empty(), tokens, sep);
}

} // verus!
