//! Laws that tie each operation to what std and the documentation define, stated
//! over the bytes themselves: where tokens end, what a numeral or a text token
//! reads as, and what each pushed value writes.
use vstd::prelude::*;
use vstd::utf8::{decode_utf8, encode_utf8, valid_utf8};

use crate::output::{decimal, signed_decimal, OutputState, Writable};
use crate::scanner::{
    after_token, all_space, digits_value, is_digit, is_space, next_token, no_space,
    signed_value, token_split, unsigned_value, word_is_next_token, Readable,
};

verus! {

/// The bytes that std's `u8::is_ascii_whitespace` accepts: U+0020 SPACE, U+0009
/// HORIZONTAL TAB, U+000A LINE FEED, U+000C FORM FEED and U+000D CARRIAGE RETURN.
pub open spec fn ascii_whitespace(b: u8) -> bool {
    b == 0x20u8 || b == 0x09u8 || b == 0x0au8 || b == 0x0cu8 || b == 0x0du8
}

/// Whether every byte of `s` is ASCII whitespace.
pub open spec fn all_ascii_whitespace(s: Seq<u8>) -> bool {
    forall|i: int| 0 <= i < s.len() ==> ascii_whitespace(#[trigger] s[i])
}

/// Whether no byte of `s` is ASCII whitespace.
pub open spec fn no_ascii_whitespace(s: Seq<u8>) -> bool {
    forall|i: int| 0 <= i < s.len() ==> !ascii_whitespace(#[trigger] s[i])
}

/// Whether every byte of `s` is one of the ASCII digits `0` to `9`.
pub open spec fn all_ascii_digits(s: Seq<u8>) -> bool {
    forall|i: int| 0 <= i < s.len() ==> 0x30u8 <= #[trigger] s[i] <= 0x39u8
}

/// Whether `rest` may follow a token: it is empty or starts with ASCII whitespace.
pub open spec fn ends_token(rest: Seq<u8>) -> bool {
    rest.len() == 0 || ascii_whitespace(rest[0])
}

proof fn lemma_all_space(s: Seq<u8>)
    ensures
        all_space(s) == all_ascii_whitespace(s),
        no_space(s) == no_ascii_whitespace(s),
{
    assert(forall|i: int| 0 <= i < s.len() ==> is_space(#[trigger] s[i]) == ascii_whitespace(s[i]));
}

/// Tokens end only at ASCII whitespace. Every input is the ASCII whitespace before
/// its next token, the token, which holds no ASCII whitespace, and what is left,
/// which is empty or starts with ASCII whitespace; the token is empty exactly when
/// the input is all ASCII whitespace.
pub proof fn tokens_end_only_at_ascii_whitespace(input: Seq<u8>)
    ensures
        ({
            let token = next_token(input);
            let rest = after_token(input);
            let lead = input.take(input.len() - token.len() - rest.len());
            &&& input == lead + token + rest
            &&& all_ascii_whitespace(lead)
            &&& no_ascii_whitespace(token)
            &&& ends_token(rest)
            &&& (token.len() == 0 <==> all_ascii_whitespace(input))
        }),
{
    token_split(input);
    let token = next_token(input);
    let rest = after_token(input);
    let t = crate::scanner::skip_space(input);
    assert(t =~= token + rest);
    let lead = input.take(input.len() - t.len());
    lemma_all_space(lead);
    lemma_all_space(token);
    lemma_all_space(input);
    assert(input.take(input.len() - token.len() - rest.len()) == lead);
}

/// A word of bytes that are not ASCII whitespace, behind ASCII whitespace and before
/// ASCII whitespace or the end of the input, is read whole as the next token.
pub proof fn ascii_word_is_next_token(ws: Seq<u8>, w: Seq<u8>, rest: Seq<u8>)
    requires
        all_ascii_whitespace(ws),
        w.len() > 0,
        no_ascii_whitespace(w),
        ends_token(rest),
    ensures
        next_token(ws + w + rest) == w,
        after_token(ws + w + rest) == rest,
{
    lemma_all_space(ws);
    lemma_all_space(w);
    word_is_next_token(ws, w, rest);
}

proof fn lemma_leading_zero(t: Seq<u8>)
    ensures
        digits_value(seq![0x30u8] + t) == digits_value(t),
    decreases t.len(),
{
    if t.len() == 0 {
        assert(seq![0x30u8] + t =~= seq![0x30u8]);
        assert(seq![0x30u8].drop_last() =~= Seq::<u8>::empty());
        assert(seq![0x30u8].last() == 0x30u8);
        assert(digits_value(Seq::<u8>::empty()) == 0);
    } else {
        lemma_leading_zero(t.drop_last());
        assert((seq![0x30u8] + t).drop_last() =~= seq![0x30u8] + t.drop_last());
        assert((seq![0x30u8] + t).last() == t.last());
    }
}

proof fn lemma_numeral_value(t: Seq<u8>)
    requires
        t.len() > 0,
        all_ascii_digits(t),
    ensures
        unsigned_value(t) == (if digits_value(t) <= u128::MAX { Some(digits_value(t)) } else { None::<nat> }),
        signed_value(t) == (if digits_value(t) <= u128::MAX { Some(digits_value(t) as int) } else { None::<int> }),
        signed_value(seq![0x2bu8] + t) == signed_value(t),
        signed_value(seq![0x2du8] + t) == (if digits_value(t) <= u128::MAX { Some(-digits_value(t)) } else { None::<int> }),
        no_ascii_whitespace(t),
{
    assert(forall|i: int| 0 <= i < t.len() ==> is_digit(#[trigger] t[i]));
    assert((seq![0x2bu8] + t).drop_first() =~= t);
    assert((seq![0x2du8] + t).drop_first() =~= t);
    assert((seq![0x2bu8] + t)[0] == 0x2bu8);
    assert((seq![0x2du8] + t)[0] == 0x2du8);
    assert(0x30u8 <= t[0] <= 0x39u8);
}

/// Every run of ASCII digits, behind ASCII whitespace and before ASCII whitespace or
/// the end of the input, is the next token; so is the run with a `0`, `+` or `-`
/// in front of it.
proof fn lemma_numeral_tokens(ws: Seq<u8>, t: Seq<u8>, rest: Seq<u8>)
    requires
        all_ascii_whitespace(ws),
        t.len() > 0,
        all_ascii_digits(t),
        ends_token(rest),
    ensures
        next_token(ws + t + rest) == t,
        after_token(ws + t + rest) == rest,
        next_token(ws + seq![0x30u8] + t + rest) == seq![0x30u8] + t,
        after_token(ws + seq![0x30u8] + t + rest) == rest,
        next_token(ws + seq![0x2bu8] + t + rest) == seq![0x2bu8] + t,
        after_token(ws + seq![0x2bu8] + t + rest) == rest,
        next_token(ws + seq![0x2du8] + t + rest) == seq![0x2du8] + t,
        after_token(ws + seq![0x2du8] + t + rest) == rest,
        digits_value(seq![0x30u8] + t) == digits_value(t),
        unsigned_value(seq![0x30u8] + t) == unsigned_value(t),
        signed_value(seq![0x30u8] + t) == signed_value(t),
{
    lemma_numeral_value(t);
    ascii_word_is_next_token(ws, t, rest);
    lemma_leading_zero(t);
    let z = seq![0x30u8] + t;
    assert(all_ascii_digits(z)) by {
        assert forall|i: int| 0 <= i < z.len() implies 0x30u8 <= #[trigger] z[i] <= 0x39u8 by {
            if i > 0 {
                assert(z[i] == t[i - 1]);
            }
        }
    }
    lemma_numeral_value(z);
    assert(ws + seq![0x30u8] + t + rest =~= ws + z + rest);
    ascii_word_is_next_token(ws, z, rest);
    let plus = seq![0x2bu8] + t;
    let minus = seq![0x2du8] + t;
    assert(no_ascii_whitespace(plus)) by {
        assert forall|i: int| 0 <= i < plus.len() implies !ascii_whitespace(#[trigger] plus[i]) by {
            if i > 0 {
                assert(plus[i] == t[i - 1]);
            }
        }
    }
    assert(no_ascii_whitespace(minus)) by {
        assert forall|i: int| 0 <= i < minus.len() implies !ascii_whitespace(#[trigger] minus[i]) by {
            if i > 0 {
                assert(minus[i] == t[i - 1]);
            }
        }
    }
    assert(ws + seq![0x2bu8] + t + rest =~= ws + plus + rest);
    assert(ws + seq![0x2du8] + t + rest =~= ws + minus + rest);
    ascii_word_is_next_token(ws, plus, rest);
    ascii_word_is_next_token(ws, minus, rest);
}

/// Reading a `u32` from any run of ASCII digits gives the number the digits denote
/// in decimal, where it fits; a leading `0` changes nothing.
pub proof fn u32_reads_any_numeral(ws: Seq<u8>, t: Seq<u8>, rest: Seq<u8>)
    requires
        all_ascii_whitespace(ws),
        t.len() > 0,
        all_ascii_digits(t),
        ends_token(rest),
    ensures
        <u32 as Readable>::read_spec(ws + t + rest) == (if digits_value(t) <= u32::MAX {
            Some((digits_value(t) as u32, rest))
        } else {
            None
        }),
        <u32 as Readable>::read_spec(ws + seq![0x30u8] + t + rest)
            == <u32 as Readable>::read_spec(ws + t + rest),
{
    lemma_numeral_value(t);
    lemma_numeral_tokens(ws, t, rest);
}

/// Reading a `u64` from any run of ASCII digits gives the number the digits denote
/// in decimal, where it fits; a leading `0` changes nothing.
pub proof fn u64_reads_any_numeral(ws: Seq<u8>, t: Seq<u8>, rest: Seq<u8>)
    requires
        all_ascii_whitespace(ws),
        t.len() > 0,
        all_ascii_digits(t),
        ends_token(rest),
    ensures
        <u64 as Readable>::read_spec(ws + t + rest) == (if digits_value(t) <= u64::MAX {
            Some((digits_value(t) as u64, rest))
        } else {
            None
        }),
        <u64 as Readable>::read_spec(ws + seq![0x30u8] + t + rest)
            == <u64 as Readable>::read_spec(ws + t + rest),
{
    lemma_numeral_value(t);
    lemma_numeral_tokens(ws, t, rest);
}

/// Reading a `u128` from any run of ASCII digits gives the number the digits denote
/// in decimal, where it fits; a leading `0` changes nothing.
pub proof fn u128_reads_any_numeral(ws: Seq<u8>, t: Seq<u8>, rest: Seq<u8>)
    requires
        all_ascii_whitespace(ws),
        t.len() > 0,
        all_ascii_digits(t),
        ends_token(rest),
    ensures
        <u128 as Readable>::read_spec(ws + t + rest) == (if digits_value(t) <= u128::MAX {
            Some((digits_value(t) as u128, rest))
        } else {
            None
        }),
        <u128 as Readable>::read_spec(ws + seq![0x30u8] + t + rest)
            == <u128 as Readable>::read_spec(ws + t + rest),
{
    lemma_numeral_value(t);
    lemma_numeral_tokens(ws, t, rest);
}

/// Reading a `usize` from any run of ASCII digits gives the number the digits denote
/// in decimal, where it fits; a leading `0` changes nothing.
pub proof fn usize_reads_any_numeral(ws: Seq<u8>, t: Seq<u8>, rest: Seq<u8>)
    requires
        all_ascii_whitespace(ws),
        t.len() > 0,
        all_ascii_digits(t),
        ends_token(rest),
    ensures
        <usize as Readable>::read_spec(ws + t + rest) == (if digits_value(t) <= usize::MAX {
            Some((digits_value(t) as usize, rest))
        } else {
            None
        }),
        <usize as Readable>::read_spec(ws + seq![0x30u8] + t + rest)
            == <usize as Readable>::read_spec(ws + t + rest),
{
    lemma_numeral_value(t);
    lemma_numeral_tokens(ws, t, rest);
}

/// Reading an `i32` from any run of ASCII digits gives the number the digits
/// denote in decimal, where it fits; a leading `0` or `+` changes nothing, and a
/// leading `-` negates it.
pub proof fn i32_reads_any_numeral(ws: Seq<u8>, t: Seq<u8>, rest: Seq<u8>)
    requires
        all_ascii_whitespace(ws),
        t.len() > 0,
        all_ascii_digits(t),
        ends_token(rest),
    ensures
        <i32 as Readable>::read_spec(ws + t + rest) == (if digits_value(t) <= i32::MAX {
            Some((digits_value(t) as i32, rest))
        } else {
            None
        }),
        <i32 as Readable>::read_spec(ws + seq![0x30u8] + t + rest)
            == <i32 as Readable>::read_spec(ws + t + rest),
        <i32 as Readable>::read_spec(ws + seq![0x2bu8] + t + rest)
            == <i32 as Readable>::read_spec(ws + t + rest),
        <i32 as Readable>::read_spec(ws + seq![0x2du8] + t + rest) == (if digits_value(t) <= i32::MAX + 1 {
            Some(((-digits_value(t)) as i32, rest))
        } else {
            None
        }),
{
    lemma_numeral_value(t);
    lemma_numeral_tokens(ws, t, rest);
}

/// Reading an `i64` from any run of ASCII digits gives the number the digits
/// denote in decimal, where it fits; a leading `0` or `+` changes nothing, and a
/// leading `-` negates it.
pub proof fn i64_reads_any_numeral(ws: Seq<u8>, t: Seq<u8>, rest: Seq<u8>)
    requires
        all_ascii_whitespace(ws),
        t.len() > 0,
        all_ascii_digits(t),
        ends_token(rest),
    ensures
        <i64 as Readable>::read_spec(ws + t + rest) == (if digits_value(t) <= i64::MAX {
            Some((digits_value(t) as i64, rest))
        } else {
            None
        }),
        <i64 as Readable>::read_spec(ws + seq![0x30u8] + t + rest)
            == <i64 as Readable>::read_spec(ws + t + rest),
        <i64 as Readable>::read_spec(ws + seq![0x2bu8] + t + rest)
            == <i64 as Readable>::read_spec(ws + t + rest),
        <i64 as Readable>::read_spec(ws + seq![0x2du8] + t + rest) == (if digits_value(t) <= i64::MAX + 1 {
            Some(((-digits_value(t)) as i64, rest))
        } else {
            None
        }),
{
    lemma_numeral_value(t);
    lemma_numeral_tokens(ws, t, rest);
}

/// Reading an `i128` from any run of ASCII digits gives the number the digits
/// denote in decimal, where it fits; a leading `0` or `+` changes nothing, and a
/// leading `-` negates it.
pub proof fn i128_reads_any_numeral(ws: Seq<u8>, t: Seq<u8>, rest: Seq<u8>)
    requires
        all_ascii_whitespace(ws),
        t.len() > 0,
        all_ascii_digits(t),
        ends_token(rest),
    ensures
        <i128 as Readable>::read_spec(ws + t + rest) == (if digits_value(t) <= i128::MAX {
            Some((digits_value(t) as i128, rest))
        } else {
            None
        }),
        <i128 as Readable>::read_spec(ws + seq![0x30u8] + t + rest)
            == <i128 as Readable>::read_spec(ws + t + rest),
        <i128 as Readable>::read_spec(ws + seq![0x2bu8] + t + rest)
            == <i128 as Readable>::read_spec(ws + t + rest),
        <i128 as Readable>::read_spec(ws + seq![0x2du8] + t + rest) == (if digits_value(t) <= i128::MAX + 1 {
            Some(((-digits_value(t)) as i128, rest))
        } else {
            None
        }),
{
    lemma_numeral_value(t);
    lemma_numeral_tokens(ws, t, rest);
}

/// Reading an `isize` from any run of ASCII digits gives the number the digits
/// denote in decimal, where it fits; a leading `0` or `+` changes nothing, and a
/// leading `-` negates it.
pub proof fn isize_reads_any_numeral(ws: Seq<u8>, t: Seq<u8>, rest: Seq<u8>)
    requires
        all_ascii_whitespace(ws),
        t.len() > 0,
        all_ascii_digits(t),
        ends_token(rest),
    ensures
        <isize as Readable>::read_spec(ws + t + rest) == (if digits_value(t) <= isize::MAX {
            Some((digits_value(t) as isize, rest))
        } else {
            None
        }),
        <isize as Readable>::read_spec(ws + seq![0x30u8] + t + rest)
            == <isize as Readable>::read_spec(ws + t + rest),
        <isize as Readable>::read_spec(ws + seq![0x2bu8] + t + rest)
            == <isize as Readable>::read_spec(ws + t + rest),
        <isize as Readable>::read_spec(ws + seq![0x2du8] + t + rest) == (if digits_value(t) <= isize::MAX + 1 {
            Some(((-digits_value(t)) as isize, rest))
        } else {
            None
        }),
{
    lemma_numeral_value(t);
    lemma_numeral_tokens(ws, t, rest);
}

/// Reading a `String` gives exactly the text of the next token: it succeeds exactly
/// when the token is valid UTF-8, and the UTF-8 encoding of what it gives is the
/// token, byte for byte.
pub proof fn string_read_is_the_token(input: Seq<u8>)
    ensures
        <String as Readable>::read_spec(input) is Some <==> valid_utf8(next_token(input)),
        <String as Readable>::read_spec(input) matches Some((text, rest)) ==> {
            &&& encode_utf8(text) == next_token(input)
            &&& rest == after_token(input)
        },
{
    if valid_utf8(next_token(input)) {
        vstd::utf8::decode_utf8_encode_utf8(next_token(input));
    }
}

/// Reading a `Vec<u8>` gives exactly the next token, and leaves what follows it.
pub proof fn bytes_read_is_the_token(input: Seq<u8>)
    ensures
        <Vec<u8> as Readable>::read_spec(input) == Some((next_token(input), after_token(input))),
        <String as Readable>::read_spec(input) matches Some((text, rest)) ==> <Vec<u8> as Readable>::read_spec(input)
            == Some((encode_utf8(text), rest)),
{
    string_read_is_the_token(input);
}

/// Reading a `bool` accepts exactly the words `true` and `1`, read as true, and
/// `false` and `0`, read as false.
pub proof fn bool_reads_its_words(ws: Seq<u8>, w: Seq<u8>, rest: Seq<u8>)
    requires
        all_ascii_whitespace(ws),
        w.len() > 0,
        no_ascii_whitespace(w),
        ends_token(rest),
    ensures
        <bool as Readable>::read_spec(ws + w + rest) == (if w == seq![0x74u8, 0x72, 0x75, 0x65]
            || w == seq![0x31u8] {
            Some((true, rest))
        } else if w == seq![0x66u8, 0x61, 0x6c, 0x73, 0x65] || w == seq![0x30u8] {
            Some((false, rest))
        } else {
            None
        }),
{
    ascii_word_is_next_token(ws, w, rest);
}

/// Pushing a `u32` writes its decimal numeral. Where a delimiter is set and due it comes first; after the value a delimiter is due.
pub proof fn pushing_u32_writes_its_numeral(v: u32, out: OutputState)
    ensures
        v.write_spec(out).bytes == out.bytes + (if out.needs_delimiter && out.delimiter is Some {
            out.delimiter->0
        } else {
            Seq::empty()
        }) + decimal(v as nat),
        v.write_spec(out).delimiter == out.delimiter,
        v.write_spec(out).needs_delimiter,
{
}

/// Pushing a `u64` writes its decimal numeral. Where a delimiter is set and due it comes first; after the value a delimiter is due.
pub proof fn pushing_u64_writes_its_numeral(v: u64, out: OutputState)
    ensures
        v.write_spec(out).bytes == out.bytes + (if out.needs_delimiter && out.delimiter is Some {
            out.delimiter->0
        } else {
            Seq::empty()
        }) + decimal(v as nat),
        v.write_spec(out).delimiter == out.delimiter,
        v.write_spec(out).needs_delimiter,
{
}

/// Pushing a `u128` writes its decimal numeral. Where a delimiter is set and due it comes first; after the value a delimiter is due.
pub proof fn pushing_u128_writes_its_numeral(v: u128, out: OutputState)
    ensures
        v.write_spec(out).bytes == out.bytes + (if out.needs_delimiter && out.delimiter is Some {
            out.delimiter->0
        } else {
            Seq::empty()
        }) + decimal(v as nat),
        v.write_spec(out).delimiter == out.delimiter,
        v.write_spec(out).needs_delimiter,
{
}

/// Pushing a `usize` writes its decimal numeral. Where a delimiter is set and due it comes first; after the value a delimiter is due.
pub proof fn pushing_usize_writes_its_numeral(v: usize, out: OutputState)
    ensures
        v.write_spec(out).bytes == out.bytes + (if out.needs_delimiter && out.delimiter is Some {
            out.delimiter->0
        } else {
            Seq::empty()
        }) + decimal(v as nat),
        v.write_spec(out).delimiter == out.delimiter,
        v.write_spec(out).needs_delimiter,
{
}

/// Pushing an `i32` writes its decimal numeral, with `-` before it where it is negative. Where a delimiter is set and due it comes first; after the value a delimiter is due.
pub proof fn pushing_i32_writes_its_numeral(v: i32, out: OutputState)
    ensures
        v.write_spec(out).bytes == out.bytes + (if out.needs_delimiter && out.delimiter is Some {
            out.delimiter->0
        } else {
            Seq::empty()
        }) + signed_decimal(v as int),
        v.write_spec(out).delimiter == out.delimiter,
        v.write_spec(out).needs_delimiter,
{
}

/// Pushing an `i64` writes its decimal numeral, with `-` before it where it is negative. Where a delimiter is set and due it comes first; after the value a delimiter is due.
pub proof fn pushing_i64_writes_its_numeral(v: i64, out: OutputState)
    ensures
        v.write_spec(out).bytes == out.bytes + (if out.needs_delimiter && out.delimiter is Some {
            out.delimiter->0
        } else {
            Seq::empty()
        }) + signed_decimal(v as int),
        v.write_spec(out).delimiter == out.delimiter,
        v.write_spec(out).needs_delimiter,
{
}

/// Pushing an `i128` writes its decimal numeral, with `-` before it where it is negative. Where a delimiter is set and due it comes first; after the value a delimiter is due.
pub proof fn pushing_i128_writes_its_numeral(v: i128, out: OutputState)
    ensures
        v.write_spec(out).bytes == out.bytes + (if out.needs_delimiter && out.delimiter is Some {
            out.delimiter->0
        } else {
            Seq::empty()
        }) + signed_decimal(v as int),
        v.write_spec(out).delimiter == out.delimiter,
        v.write_spec(out).needs_delimiter,
{
}

/// Pushing an `isize` writes its decimal numeral, with `-` before it where it is negative. Where a delimiter is set and due it comes first; after the value a delimiter is due.
pub proof fn pushing_isize_writes_its_numeral(v: isize, out: OutputState)
    ensures
        v.write_spec(out).bytes == out.bytes + (if out.needs_delimiter && out.delimiter is Some {
            out.delimiter->0
        } else {
            Seq::empty()
        }) + signed_decimal(v as int),
        v.write_spec(out).delimiter == out.delimiter,
        v.write_spec(out).needs_delimiter,
{
}

/// Pushing a `bool` writes `true` or `false`. Where a delimiter is set and due it comes first; after the value a delimiter is due.
pub proof fn pushing_bool_writes_its_word(v: bool, out: OutputState)
    ensures
        v.write_spec(out).bytes == out.bytes + (if out.needs_delimiter && out.delimiter is Some {
            out.delimiter->0
        } else {
            Seq::empty()
        }) + (if v { seq![0x74u8, 0x72, 0x75, 0x65] } else { seq![0x66u8, 0x61, 0x6c, 0x73, 0x65] }),
        v.write_spec(out).delimiter == out.delimiter,
        v.write_spec(out).needs_delimiter,
{
}

/// Pushing a byte slice writes its bytes unchanged. Where a delimiter is set and due it comes first; after the value a delimiter is due.
pub proof fn pushing_byte_slice_writes_its_bytes(v: &[u8], out: OutputState)
    ensures
        v.write_spec(out).bytes == out.bytes + (if out.needs_delimiter && out.delimiter is Some {
            out.delimiter->0
        } else {
            Seq::empty()
        }) + v@,
        v.write_spec(out).delimiter == out.delimiter,
        v.write_spec(out).needs_delimiter,
{
}

/// Pushing a byte array writes its bytes unchanged. Where a delimiter is set and due it comes first; after the value a delimiter is due.
pub proof fn pushing_byte_array_writes_its_bytes<const N: usize>(v: &[u8; N], out: OutputState)
    ensures
        v.write_spec(out).bytes == out.bytes + (if out.needs_delimiter && out.delimiter is Some {
            out.delimiter->0
        } else {
            Seq::empty()
        }) + v@,
        v.write_spec(out).delimiter == out.delimiter,
        v.write_spec(out).needs_delimiter,
{
}

/// Pushing a `&str` writes its UTF-8 encoding unchanged, so that what it adds after the delimiter decodes to the same text. Where a delimiter is set and due it comes first; after the value a delimiter is due.
pub proof fn pushing_str_writes_its_utf8(v: &str, out: OutputState)
    ensures
        v.write_spec(out).bytes == out.bytes + (if out.needs_delimiter && out.delimiter is Some {
            out.delimiter->0
        } else {
            Seq::empty()
        }) + encode_utf8(v@),
        v.write_spec(out).delimiter == out.delimiter,
        v.write_spec(out).needs_delimiter,
        decode_utf8(v.write_spec(out).bytes.skip(v.write_spec(out).bytes.len() - encode_utf8(v@).len())) == v@,
{
    vstd::utf8::encode_utf8_decode_utf8(v@);
    let b = v.write_spec(out).bytes;
    assert(b.skip(b.len() - encode_utf8(v@).len()) =~= encode_utf8(v@));
}

} // verus!
