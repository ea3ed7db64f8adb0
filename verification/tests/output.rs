use rust_io::OutputBuffer;
use std::fmt::Write as _;
use std::io::Write as _;

fn output_string(out: OutputBuffer) -> String {
    String::from_utf8(out.into_bytes()).unwrap()
}

#[test]
fn new_output_is_empty() {
    assert!(OutputBuffer::new().is_empty());
}

#[test]
fn default_output_is_empty() {
    assert!(OutputBuffer::default().is_empty());
}

#[test]
fn pushes_u64() {
    let mut out = OutputBuffer::with_capacity(0);
    out.push(0_u64);
    assert_eq!(output_string(out), "0");
}

#[test]
fn pushes_i64() {
    let mut out = OutputBuffer::with_capacity(0);
    out.push(42_i64);
    assert_eq!(output_string(out), "42");
}

#[test]
fn pushes_smaller_signed_integers() {
    let mut out = OutputBuffer::with_capacity(0);
    out.push(42_i32);
    out.push(b" ");
    out.push(99_isize);
    assert_eq!(output_string(out), "42 99");
}

#[test]
fn pushes_f64() {
    let mut out = OutputBuffer::with_capacity(0);
    out.push_str(&1.5_f64.to_string());
    assert_eq!(output_string(out), "1.5");
}

#[test]
fn pushes_larger_integers() {
    let mut out = OutputBuffer::with_capacity(0);
    out.push(123_u128);
    out.push(b" ");
    out.push(456_usize);
    out.push(b" ");
    out.push(i128::MIN);
    assert_eq!(output_string(out), format!("123 456 {}", i128::MIN));
}

#[test]
fn pushes_bytes() {
    let mut out = OutputBuffer::with_capacity(0);
    out.push_bytes(b"hello world");
    assert_eq!(output_string(out), "hello world");
}

#[test]
fn pushes_bool() {
    let mut out = OutputBuffer::with_capacity(0);
    out.push(true);
    assert_eq!(output_string(out), "true");
}

#[test]
fn write_to_writes_into_any_io_writer() {
    let mut out = OutputBuffer::with_capacity(0);
    out.push(b"hello");

    let mut dest = Vec::new();
    dest.write_all(&out.into_bytes()).unwrap();

    assert_eq!(dest, b"hello");
}

#[test]
fn implements_fmt_write() {
    let mut out = OutputBuffer::with_capacity(0);

    out.write_str(&format!("{} + {} = {}", 2, 3, 5)).unwrap();

    assert_eq!(output_string(out), "2 + 3 = 5");
}

#[test]
fn pushes_str() {
    let mut out = OutputBuffer::with_capacity(0);
    out.push_str("hello");
    assert_eq!(output_string(out), "hello");
}

#[test]
fn pushes_newline_with_endl() {
    let mut out = OutputBuffer::with_capacity(0);
    out.push_str("hello");
    out.endl();
    out.push_str("world");
    assert_eq!(output_string(out), "hello\nworld");
}

#[test]
fn writes_delimiter_between_tokens() {
    let mut out = OutputBuffer::with_capacity(0);
    out.set_delimiter(", ".as_bytes());
    out.push("a");
    out.push("b");
    out.push("c");
    assert_eq!(output_string(out), "a, b, c");
}

#[test]
fn delimiter_resets_after_endl() {
    let mut out = OutputBuffer::with_capacity(0);
    out.set_delimiter(" ".as_bytes());
    out.push("last");
    out.endl();
    out.push("real");
    out.push("token");
    assert_eq!(output_string(out), "last\nreal token");
}
