use studymood::text::{ascii_string, parse_u64, push_decimal};

#[test]
fn parse_plain_digits() {
    assert_eq!(parse_u64(b"0"), Some(0));
    assert_eq!(parse_u64(b"1234"), Some(1234));
    assert_eq!(parse_u64(b"0007"), Some(7));
}

#[test]
fn parse_accepts_leading_plus_only() {
    assert_eq!(parse_u64(b"+42"), Some(42));
    assert_eq!(parse_u64(b"-42"), None);
    assert_eq!(parse_u64(b"+"), None);
    assert_eq!(parse_u64(b"-"), None);
    assert_eq!(parse_u64(b"++1"), None);
}

#[test]
fn parse_rejects_empty_and_junk() {
    assert_eq!(parse_u64(b""), None);
    assert_eq!(parse_u64(b"12a"), None);
    assert_eq!(parse_u64(b" 1"), None);
}

#[test]
fn parse_bounds_of_u64() {
    assert_eq!(parse_u64(b"18446744073709551615"), Some(u64::MAX));
    assert_eq!(parse_u64(b"18446744073709551616"), None);
    assert_eq!(parse_u64(b"99999999999999999999999"), None);
}

#[test]
fn parse_agrees_with_std() {
    for s in ["", "+", "-", "0", "+0", "-0", "12", "007", "1-2", "18446744073709551615", "18446744073709551616"] {
        assert_eq!(parse_u64(s.as_bytes()), s.parse::<u64>().ok(), "input {:?}", s);
    }
}

#[test]
fn decimal_round_trip() {
    for n in [0u64, 7, 10, 99, 100, 12345, u64::MAX] {
        let mut out = Vec::new();
        push_decimal(&mut out, n);
        assert_eq!(out, n.to_string().into_bytes());
        assert_eq!(parse_u64(&out), Some(n));
    }
}

#[test]
fn ascii_string_keeps_bytes() {
    assert_eq!(ascii_string(b"bytes */10".to_vec()), "bytes */10");
    assert_eq!(ascii_string(Vec::new()), "");
}
