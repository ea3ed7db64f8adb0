use rust_io::{OutputBuffer, Scanner};
use std::fmt::Write as _;

fn text(out: OutputBuffer) -> String {
    String::from_utf8(out.into_bytes()).unwrap()
}

#[test]
fn scanner_reads_number_then_word() {
    let mut scan = Scanner::from_bytes(b"42 hello");
    let n: u64 = scan.next();
    let s: String = scan.next();
    assert_eq!(n, 42);
    assert_eq!(s, "hello");
}

#[test]
fn tokens_split_on_every_ascii_whitespace_byte() {
    let mut scan = Scanner::from_bytes(b" \t12\n\r\x0c34  ");
    assert_eq!(scan.next::<u32>(), 12);
    assert_eq!(scan.next::<u32>(), 34);
    // Trailing whitespace is still unread input.
    assert!(!scan.is_empty());
    assert_eq!(scan.next_bytes(), b"");
    assert!(scan.is_empty());
}

#[test]
fn vertical_tab_is_not_whitespace() {
    let mut scan = Scanner::from_bytes(b"a\x0bb c");
    assert_eq!(scan.next_bytes(), b"a\x0bb");
    assert_eq!(scan.next_bytes(), b"c");
}

#[test]
fn next_bytes_on_whitespace_only_is_empty() {
    let mut scan = Scanner::from_bytes(b"   ");
    assert!(!scan.is_empty());
    assert_eq!(scan.next_bytes(), b"");
    assert!(scan.is_empty());
}

#[test]
fn parses_sign_prefixes_and_leading_zeros() {
    let mut scan = Scanner::from_bytes(b"+5 -0 007 -0012");
    assert_eq!(scan.next::<i32>(), 5);
    assert_eq!(scan.next::<i64>(), 0);
    assert_eq!(scan.next::<u64>(), 7);
    assert_eq!(scan.next::<isize>(), -12);
}

#[test]
fn parses_i128_extremes() {
    let input = format!("{} {}", i128::MIN, i128::MAX);
    let mut scan = Scanner::from_bytes(input.as_bytes());
    assert_eq!(scan.next::<i128>(), i128::MIN);
    assert_eq!(scan.next::<i128>(), i128::MAX);
    assert!(scan.is_empty());
}

#[test]
fn parses_i32_extremes() {
    let mut scan = Scanner::from_bytes(b"-2147483648 2147483647");
    assert_eq!(scan.next::<i32>(), i32::MIN);
    assert_eq!(scan.next::<i32>(), i32::MAX);
}

#[test]
fn parses_utf8_strings() {
    let mut scan = Scanner::from_bytes("héllo wörld".as_bytes());
    assert_eq!(scan.next::<String>(), "héllo");
    assert_eq!(scan.next::<String>(), "wörld");
    assert!(scan.is_empty());
}

#[test]
fn written_integers_read_back() {
    let mut out = OutputBuffer::new();
    out.push(u64::MAX);
    out.endl();
    out.push(i64::MIN);
    out.endl();
    out.push(0_u32);
    out.endl();
    out.push(-1_i128);
    out.endl();
    out.push(u128::MAX);
    let bytes = out.into_bytes();
    let mut scan = Scanner::from_bytes(&bytes);
    assert_eq!(scan.next::<u64>(), u64::MAX);
    assert_eq!(scan.next::<i64>(), i64::MIN);
    assert_eq!(scan.next::<u32>(), 0);
    assert_eq!(scan.next::<i128>(), -1);
    assert_eq!(scan.next::<u128>(), u128::MAX);
    assert!(scan.is_empty());
}

#[test]
fn written_bools_read_back() {
    let mut out = OutputBuffer::new();
    out.set_delimiter(b"\t");
    out.push(true);
    out.push(false);
    let bytes = out.into_bytes();
    assert_eq!(bytes, b"true\tfalse");
    let mut scan = Scanner::from_bytes(&bytes);
    assert!(scan.next::<bool>());
    assert!(!scan.next::<bool>());
    assert!(scan.is_empty());
}

#[test]
fn pushed_tokens_read_back_in_order() {
    let mut out = OutputBuffer::new();
    out.set_delimiter(b" ");
    out.push("alpha");
    out.push(b"beta".as_slice());
    out.push_bytes(b"gamma");
    let bytes = out.into_bytes();
    let mut scan = Scanner::from_bytes(&bytes);
    assert_eq!(scan.next::<Vec<u8>>(), b"alpha");
    assert_eq!(scan.next::<Vec<u8>>(), b"beta");
    assert_eq!(scan.next::<Vec<u8>>(), b"gamma");
    assert!(scan.is_empty());
}

#[test]
fn pushes_negative_and_extreme_integers() {
    let mut out = OutputBuffer::new();
    out.push(-42_i64);
    out.push(b" ");
    out.push(i64::MIN);
    out.push(b" ");
    out.push(u32::MAX);
    out.push(b" ");
    out.push(i128::MAX);
    assert_eq!(
        text(out),
        format!("-42 {} {} {}", i64::MIN, u32::MAX, i128::MAX)
    );
}

#[test]
fn pushes_usize_max_and_false() {
    let mut out = OutputBuffer::new();
    out.push(usize::MAX);
    out.push(false);
    assert_eq!(text(out), format!("{}false", usize::MAX));
}

#[test]
fn integers_take_the_delimiter() {
    let mut out = OutputBuffer::new();
    out.set_delimiter(b",");
    out.push(1_u64);
    out.push(2_i32);
    out.push("x");
    out.push("y");
    assert_eq!(text(out), "1,2,x,y");
}

#[test]
fn delimited_integers_read_back() {
    let mut out = OutputBuffer::with_capacity(0);
    out.set_delimiter(b", ");
    out.push(1_u64);
    out.push(2_u64);
    out.push(-3_i64);
    let bytes = out.into_bytes();
    assert_eq!(bytes, b"1, 2, -3");
    let mut scan = Scanner::from_bytes(&bytes);
    assert_eq!(scan.next::<Vec<u8>>(), b"1,");
    assert_eq!(scan.next::<Vec<u8>>(), b"2,");
    assert_eq!(scan.next::<i64>(), -3);
}

#[test]
fn clear_delimiter_stops_delimiting() {
    let mut out = OutputBuffer::new();
    out.set_delimiter(b", ");
    out.push("a");
    out.push("b");
    out.clear_delimiter();
    out.push("c");
    out.push("d");
    assert_eq!(text(out), "a, bcd");
}

#[test]
fn delimiter_set_after_a_token_applies_to_the_next() {
    let mut out = OutputBuffer::new();
    out.push("a");
    out.set_delimiter(b"-");
    out.push("b");
    assert_eq!(text(out), "a-b");
}

#[test]
fn fmt_write_appends_without_delimiter() {
    let mut out = OutputBuffer::new();
    out.set_delimiter(b" ");
    out.push("a");
    out.write_str("b").unwrap();
    out.push("c");
    assert_eq!(text(out), "ab c");
}

#[test]
fn endl_writes_no_delimiter_before_the_newline() {
    let mut out = OutputBuffer::new();
    out.set_delimiter(b" ");
    out.push("a");
    out.endl();
    out.endl();
    out.push("b");
    assert!(!out.is_empty());
    assert_eq!(text(out), "a\n\nb");
}
