use linkerland::numbers::{parse_hex_u64, parse_i32};

#[test]
fn hex_with_and_without_prefix() {
    assert_eq!(parse_hex_u64("0x10"), Some(16));
    assert_eq!(parse_hex_u64("10"), Some(16));
    assert_eq!(parse_hex_u64("0xFFFFFFFFFFFFFFFF"), Some(u64::MAX));
    assert_eq!(parse_hex_u64("0x10000000000000000"), None);
    assert_eq!(parse_hex_u64("0x"), None);
    assert_eq!(parse_hex_u64(""), None);
    assert_eq!(parse_hex_u64("0xZZZZ"), None);
    assert_eq!(parse_hex_u64("0x+1f"), Some(31));
}

#[test]
fn decimal_i32_bounds() {
    assert_eq!(parse_i32("1"), Some(1));
    assert_eq!(parse_i32("-2147483648"), Some(i32::MIN));
    assert_eq!(parse_i32("2147483647"), Some(i32::MAX));
    assert_eq!(parse_i32("2147483648"), None);
    assert_eq!(parse_i32("+7"), Some(7));
    assert_eq!(parse_i32("-"), None);
    assert_eq!(parse_i32(""), None);
    assert_eq!(parse_i32("1x"), None);
}
