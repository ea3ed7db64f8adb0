use rust_io::Scanner;
use std::io::{Cursor, Read};

#[test]
fn from_reader_reads_input() {
    let mut bytes = Vec::new();
    Cursor::new(b"123 abc").read_to_end(&mut bytes).unwrap();
    let mut input = Scanner::from_bytes(&bytes);

    let n: u64 = input.next();
    let token: Vec<u8> = input.next();

    assert_eq!(n, 123);
    assert_eq!(token, b"abc");
    assert!(input.is_empty());
}

#[test]
fn parses_unsigned_integers() {
    let mut input = Scanner::from_bytes(b"42 99");

    let first: u64 = input.next();
    let second: u64 = input.next();

    assert_eq!(first, 42);
    assert_eq!(second, 99);
    assert!(input.is_empty());
}

#[test]
fn parses_smaller_unsigned_integers() {
    let mut input = Scanner::from_bytes(b"42 99 123");

    let first: u32 = input.next();
    let second: usize = input.next();
    let third: u128 = input.next();

    assert_eq!(first, 42);
    assert_eq!(second, 99);
    assert_eq!(third, 123);
    assert!(input.is_empty());
}

#[test]
fn parses_signed_integers() {
    let mut input = Scanner::from_bytes(b"-42 99 -7");

    let first: i64 = input.next();
    let second: i64 = input.next();
    let third: i64 = input.next();

    assert_eq!(first, -42);
    assert_eq!(second, 99);
    assert_eq!(third, -7);
    assert!(input.is_empty());
}

#[test]
fn parses_smaller_signed_integers() {
    let mut input = Scanner::from_bytes(b"-42 99 -7");

    let first: i32 = input.next();
    let second: isize = input.next();
    let third: i128 = input.next();

    assert_eq!(first, -42);
    assert_eq!(second, 99);
    assert_eq!(third, -7);
    assert!(input.is_empty());
}

#[test]
fn parses_signed_integer_boundaries() {
    let mut input = Scanner::from_bytes(b"9223372036854775807 -9223372036854775808");

    assert_eq!(input.next::<i64>(), i64::MAX);
    assert_eq!(input.next::<i64>(), i64::MIN);
    assert!(input.is_empty());
}

#[test]
fn parses_unsigned_integer_boundary() {
    let mut input = Scanner::from_bytes(b"18446744073709551615");

    assert_eq!(input.next::<u64>(), u64::MAX);
    assert!(input.is_empty());
}

#[test]
fn parses_smaller_unsigned_integer_boundaries() {
    let u32_max = u32::MAX.to_string();
    let usize_max = usize::MAX.to_string();
    let u128_max = u128::MAX.to_string();
    let input = format!("{u32_max} {usize_max} {u128_max}");
    let mut scanner = Scanner::from_bytes(input.as_bytes());

    assert_eq!(scanner.next::<u32>(), u32::MAX);
    assert_eq!(scanner.next::<usize>(), usize::MAX);
    assert_eq!(scanner.next::<u128>(), u128::MAX);
    assert!(scanner.is_empty());
}

#[test]
fn parses_floats() {
    let mut input = Scanner::from_bytes(b"2.14 -2.5 1e3");
    let mut next_f64 = || -> f64 {
        std::str::from_utf8(input.next_bytes()).unwrap().parse().unwrap()
    };

    assert_eq!(next_f64(), 2.14);
    assert_eq!(next_f64(), -2.5);
    assert_eq!(next_f64(), 1000.0);
    assert!(input.is_empty());
}

#[test]
fn parses_strings() {
    let mut input = Scanner::from_bytes(b"hello world");

    let first: String = input.next();
    let second: String = input.next();

    assert_eq!(first, "hello");
    assert_eq!(second, "world");
    assert!(input.is_empty());
}

#[test]
fn parses_bools() {
    let mut input = Scanner::from_bytes(b"true false 1 0");

    assert!(input.next::<bool>());
    assert!(!input.next::<bool>());
    assert!(input.next::<bool>());
    assert!(!input.next::<bool>());
    assert!(input.is_empty());
}

#[test]
fn parses_bytes() {
    let mut input = Scanner::from_bytes(b"hello world");

    assert_eq!(input.next::<Vec<u8>>(), b"hello");
    assert_eq!(input.next::<Vec<u8>>(), b"world");
    assert!(input.is_empty());
}

#[test]
fn empty_input() {
    let input = Scanner::from_bytes(b"");

    assert!(input.is_empty());
}
