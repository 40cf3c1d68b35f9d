//! The decimal numerals the refund protocol reads.

use reward_ledger::parse_u128_decimal;

#[test]
fn test_parse_plain_numerals() {
    assert_eq!(parse_u128_decimal(&b"0".to_vec()), Some(0));
    assert_eq!(parse_u128_decimal(&b"123".to_vec()), Some(123));
    assert_eq!(parse_u128_decimal(&b"0042".to_vec()), Some(42));
    assert_eq!(parse_u128_decimal(&b"+7".to_vec()), Some(7));
}

#[test]
fn test_parse_rejects_malformed_numerals() {
    assert_eq!(parse_u128_decimal(&b"".to_vec()), None);
    assert_eq!(parse_u128_decimal(&b"+".to_vec()), None);
    assert_eq!(parse_u128_decimal(&b"-1".to_vec()), None);
    assert_eq!(parse_u128_decimal(&b"12a".to_vec()), None);
    assert_eq!(parse_u128_decimal(&b" 12".to_vec()), None);
    assert_eq!(parse_u128_decimal(&b"1 2".to_vec()), None);
}

#[test]
fn test_parse_range_limits() {
    let max = u128::MAX.to_string();
    assert_eq!(parse_u128_decimal(&max.clone().into_bytes()), Some(u128::MAX));
    let above = format!("{}0", max);
    assert_eq!(parse_u128_decimal(&above.into_bytes()), None);
    assert_eq!(
        parse_u128_decimal(&b"340282366920938463463374607431768211456".to_vec()),
        None
    );
}

#[test]
fn test_parse_agrees_with_std() {
    let cases: [&[u8]; 8] = [
        b"0", b"0001", b"+99", b"18446744073709551616", b"abc", b"", b"-3", b"1_0",
    ];
    for bytes in cases {
        let ours = parse_u128_decimal(&bytes.to_vec());
        let std_parse = std::str::from_utf8(bytes).unwrap().parse::<u128>().ok();
        assert_eq!(ours, std_parse);
    }
}
