use ax25_node_core::fields::{find, split};
use ax25_node_core::numbers::{append_digits, parse_long, parse_number, parse_signed};
use ax25_node_core::pieces::Pieces;
use ax25_node_core::text::{same_bytes, same_text, string_of};
use ax25_node_core::tune::parse_nonneg_i32;

fn written(n: i64) -> Vec<u8> {
    let mut out = Pieces::new();
    out.push_signed(n);
    out.text()
}

#[test]
fn digits_are_written_without_leading_zeros() {
    let mut out = b"n=".to_vec();
    append_digits(&mut out, 0);
    out.push(b',');
    append_digits(&mut out, 18446744073709551615);
    assert_eq!(out, b"n=0,18446744073709551615".to_vec());
    assert_eq!(written(-12), b"-12".to_vec());
    assert_eq!(written(i64::MIN), b"-9223372036854775808".to_vec());
}

#[test]
fn numbers_are_read_back_from_their_digits() {
    for n in [0u64, 1, 9, 10, 99, 100, 65535, u64::MAX] {
        let mut out = Vec::new();
        append_digits(&mut out, n);
        assert_eq!(parse_number(&out, u64::MAX), Some(n));
    }
    for n in [i64::MIN, -1, 0, 1, i64::MAX] {
        assert_eq!(parse_long(&written(n)), Some(n));
    }
    for n in [i32::MIN, -7, 0, 7, i32::MAX] {
        assert_eq!(parse_signed(&written(n as i64)), Some(n));
    }
}

#[test]
fn numbers_out_of_range_are_refused() {
    assert_eq!(parse_number(b"256", 255), None);
    assert_eq!(parse_number(b"255", 255), Some(255));
    assert_eq!(parse_number(b"000255", 255), Some(255));
    assert_eq!(parse_number(b"18446744073709551616", u64::MAX), None);
    assert_eq!(parse_signed(b"2147483648"), None);
    assert_eq!(parse_signed(b"-2147483648"), Some(i32::MIN));
    assert_eq!(parse_long(b"9223372036854775808"), None);
}

#[test]
fn what_is_no_number_is_refused() {
    for s in [&b""[..], b"-", b"+", b"1x", b" 1", b"--1", b"1-"] {
        assert_eq!(parse_signed(s), None);
        assert_eq!(parse_long(s), None);
        assert_eq!(parse_number(s, 10), None);
    }
    assert_eq!(parse_signed(b"+5"), Some(5));
    assert_eq!(parse_number(b"+5", 10), None);
}

#[test]
fn counts_are_never_negative() {
    assert_eq!(parse_nonneg_i32(b"0"), Some(0));
    assert_eq!(parse_nonneg_i32(b"2147483647"), Some(i32::MAX));
    assert_eq!(parse_nonneg_i32(b"2147483648"), None);
    assert_eq!(parse_nonneg_i32(b"-1"), None);
    assert_eq!(parse_nonneg_i32(b""), None);
}

#[test]
fn a_field_ends_at_the_first_separator() {
    assert_eq!(find(b"a,b,c", b','), 1);
    assert_eq!(find(b"abc", b','), 3);
    assert_eq!(split(b"a,b,c", b','), (&b"a"[..], Some(&b"b,c"[..])));
    assert_eq!(split(b"abc", b','), (&b"abc"[..], None));
    assert_eq!(split(b",", b','), (&b""[..], Some(&b""[..])));
}

#[test]
fn texts_are_compared_octet_by_octet() {
    assert!(same_bytes(b"abc", b"abc"));
    assert!(!same_bytes(b"abc", b"abd"));
    assert!(!same_bytes(b"abc", b"ab"));
    assert!(same_text("r\u{e9}ponse", "r\u{e9}ponse"));
    assert!(!same_text("a", "A"));
    assert_eq!(string_of("r\u{e9}ponse".as_bytes()), "r\u{e9}ponse");
}
