use payments::amount::{format_amount, parse_amount};

#[test]
fn parses_whole_and_fractional_amounts() {
    assert_eq!(parse_amount(b"1.5"), Some(15000));
    assert_eq!(parse_amount(b"10"), Some(100000));
    assert_eq!(parse_amount(b"0.0001"), Some(1));
    assert_eq!(parse_amount(b"3.1415"), Some(31415));
    assert_eq!(parse_amount(b"007.10"), Some(71000));
}

#[test]
fn rejects_malformed_amounts() {
    assert_eq!(parse_amount(b""), None);
    assert_eq!(parse_amount(b"1."), None);
    assert_eq!(parse_amount(b".5"), None);
    assert_eq!(parse_amount(b"1.23456"), None);
    assert_eq!(parse_amount(b"-1"), None);
    assert_eq!(parse_amount(b"1.2.3"), None);
    assert_eq!(parse_amount(b"abc"), None);
    assert_eq!(parse_amount(b" 1"), None);
}

#[test]
fn parses_up_to_the_largest_amount() {
    assert_eq!(parse_amount(b"922337203685477.5807"), Some(i64::MAX));
    assert_eq!(parse_amount(b"922337203685477.5808"), None);
    assert_eq!(parse_amount(b"99999999999999999999999"), None);
}

#[test]
fn formats_with_four_decimals() {
    assert_eq!(format_amount(15000), b"1.5000".to_vec());
    assert_eq!(format_amount(0), b"0.0000".to_vec());
    assert_eq!(format_amount(-50000), b"-5.0000".to_vec());
    assert_eq!(format_amount(1), b"0.0001".to_vec());
    assert_eq!(format_amount(i64::MIN), b"-922337203685477.5808".to_vec());
}

#[test]
fn formatted_amounts_parse_back() {
    for v in [0i64, 1, 15000, 123456789, i64::MAX] {
        assert_eq!(parse_amount(&format_amount(v)), Some(v));
    }
}
