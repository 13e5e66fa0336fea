//! Tests of the decimal size rendering and parsing used in header lines.

use wn_core::decimal::{parse_decimal, render_decimal};

#[test]
fn renders_exact_digits() {
    assert_eq!(render_decimal(0), b"0".to_vec());
    assert_eq!(render_decimal(7), b"7".to_vec());
    assert_eq!(render_decimal(10), b"10".to_vec());
    assert_eq!(render_decimal(409), b"409".to_vec());
    assert_eq!(render_decimal(usize::MAX), usize::MAX.to_string().into_bytes());
}

#[test]
fn parses_exact_values() {
    assert_eq!(parse_decimal(&b"0".to_vec()), Some(0));
    assert_eq!(parse_decimal(&b"007".to_vec()), Some(7));
    assert_eq!(parse_decimal(&b"409".to_vec()), Some(409));
    assert_eq!(
        parse_decimal(&usize::MAX.to_string().into_bytes()),
        Some(usize::MAX)
    );
}

#[test]
fn rejects_non_digits_and_overflow() {
    assert_eq!(parse_decimal(&Vec::new()), None);
    assert_eq!(parse_decimal(&b"-1".to_vec()), None);
    assert_eq!(parse_decimal(&b"12a".to_vec()), None);
    assert_eq!(parse_decimal(&b"99999999999999999999999999999".to_vec()), None);
}

#[test]
fn round_trips_through_rendering() {
    for n in [0usize, 1, 9, 10, 99, 100, 12345, usize::MAX] {
        assert_eq!(parse_decimal(&render_decimal(n)), Some(n));
    }
}
