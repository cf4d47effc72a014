//! Tests of the decimal amount text: parsing and rendering.

use ledger_engine::amount::{format_amount, parse_amount};

#[test]
fn parse_empty_or_blank_is_zero() {
    // dispute/resolve/chargeback rows carry no amount: empty means zero
    assert_eq!(parse_amount(b""), Some(0));
    assert_eq!(parse_amount(b"   "), Some(0));
    assert_eq!(parse_amount(b"\t \r\n"), Some(0));
}

#[test]
fn parse_plain_decimals() {
    assert_eq!(parse_amount(b"10.0"), Some(100000));
    assert_eq!(parse_amount(b"5.0"), Some(50000));
    assert_eq!(parse_amount(b"0.0"), Some(0));
    assert_eq!(parse_amount(b"12.3456"), Some(123456));
    assert_eq!(parse_amount(b"0.0001"), Some(1));
    assert_eq!(parse_amount(b"1000"), Some(10000000));
    assert_eq!(parse_amount(b"7."), Some(70000));
    assert_eq!(parse_amount(b".5"), Some(5000));
}

#[test]
fn parse_trims_surrounding_whitespace() {
    assert_eq!(parse_amount(b" 10.0 "), Some(100000));
    assert_eq!(parse_amount(b"\t3.25\r\n"), Some(32500));
}

#[test]
fn parse_rejects_malformed_text() {
    assert_eq!(parse_amount(b"-5.0"), None); // amounts are non-negative
    assert_eq!(parse_amount(b"+5.0"), None);
    assert_eq!(parse_amount(b"abc"), None);
    assert_eq!(parse_amount(b"1.2.3"), None);
    assert_eq!(parse_amount(b"."), None);
    assert_eq!(parse_amount(b"1,5"), None);
    assert_eq!(parse_amount(b"1 5"), None); // inner whitespace is not trimmed
    assert_eq!(parse_amount(b"1.23456"), None); // five fractional digits
}

#[test]
fn parse_rejects_out_of_range_values() {
    // seventeen integer digits are never accepted
    assert_eq!(parse_amount(b"99999999999999999"), None);
    // sixteen digits, but 9999999999999999.0000 units exceed the range
    assert_eq!(parse_amount(b"9999999999999999"), None);
    // the largest representable amount, exactly u64::MAX units
    assert_eq!(parse_amount(b"1844674407370955.1615"), Some(u64::MAX));
    // one ten-thousandth more does not fit
    assert_eq!(parse_amount(b"1844674407370955.1616"), None);
}

#[test]
fn format_renders_canonical_text() {
    assert_eq!(format_amount(100000), b"10".to_vec());
    assert_eq!(format_amount(0), b"0".to_vec());
    assert_eq!(format_amount(1), b"0.0001".to_vec());
    assert_eq!(format_amount(123456), b"12.3456".to_vec());
    assert_eq!(format_amount(105000), b"10.5000".to_vec());
    assert_eq!(format_amount(10000000), b"1000".to_vec());
    assert_eq!(format_amount(u64::MAX), b"1844674407370955.1615".to_vec());
}

#[test]
fn format_then_parse_round_trips() {
    let samples: [u64; 8] = [0, 1, 9999, 10000, 100000, 123456, 1844674407370955, u64::MAX];
    for a in samples {
        let text = format_amount(a);
        assert_eq!(parse_amount(&text), Some(a), "round trip failed for {}", a);
    }
}
