//! Decimal rendering and base-10 signed parsing.

use seq_expand::num::{i64_to_dec, parse_i64, u64_to_dec};

#[test]
fn renders_zero() {
    assert_eq!(u64_to_dec(0), b"0".to_vec());
}

#[test]
fn renders_single_digit() {
    assert_eq!(u64_to_dec(7), b"7".to_vec());
}

#[test]
fn renders_multi_digit() {
    assert_eq!(u64_to_dec(1234567890), b"1234567890".to_vec());
}

#[test]
fn renders_negative() {
    assert_eq!(i64_to_dec(-17), b"-17".to_vec());
}

#[test]
fn renders_i64_min() {
    assert_eq!(i64_to_dec(i64::MIN), b"-9223372036854775808".to_vec());
}

#[test]
fn parses_zero() {
    assert_eq!(parse_i64(&b"0".to_vec()), Some(0));
}

#[test]
fn parses_positive() {
    assert_eq!(parse_i64(&b"421".to_vec()), Some(421));
}

#[test]
fn parses_negative() {
    assert_eq!(parse_i64(&b"-5".to_vec()), Some(-5));
}

#[test]
fn parses_i64_max() {
    assert_eq!(parse_i64(&b"9223372036854775807".to_vec()), Some(i64::MAX));
}

#[test]
fn parses_i64_min() {
    assert_eq!(parse_i64(&b"-9223372036854775808".to_vec()), Some(i64::MIN));
}

#[test]
fn rejects_positive_overflow() {
    assert_eq!(parse_i64(&b"9223372036854775808".to_vec()), None);
}

#[test]
fn rejects_negative_overflow() {
    assert_eq!(parse_i64(&b"-9223372036854775809".to_vec()), None);
}

#[test]
fn rejects_huge_digit_string() {
    assert_eq!(parse_i64(&b"99999999999999999999999999".to_vec()), None);
}

#[test]
fn rejects_empty_text() {
    assert_eq!(parse_i64(&b"".to_vec()), None);
}

#[test]
fn rejects_bare_minus() {
    assert_eq!(parse_i64(&b"-".to_vec()), None);
}

#[test]
fn rejects_non_digit() {
    assert_eq!(parse_i64(&b"12a".to_vec()), None);
}

#[test]
fn rejects_plus_sign() {
    assert_eq!(parse_i64(&b"+3".to_vec()), None);
}

#[test]
fn round_trips_through_text() {
    for n in [-12i64, -1, 0, 1, 9, 10, 99, 100, 4096] {
        assert_eq!(parse_i64(&i64_to_dec(n)), Some(n));
    }
}
