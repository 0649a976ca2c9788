use printer_monitor::numbers::{parse_decimal, parse_i32, parse_u32, parse_u8, Decimal};

#[test]
fn i32_forms() {
    assert_eq!(parse_i32("0"), Some(0));
    assert_eq!(parse_i32("+5"), Some(5));
    assert_eq!(parse_i32("-17"), Some(-17));
    assert_eq!(parse_i32("007"), Some(7));
    assert_eq!(parse_i32("2147483647"), Some(i32::MAX));
    assert_eq!(parse_i32("-2147483648"), Some(i32::MIN));
    assert_eq!(parse_i32("2147483648"), None);
    assert_eq!(parse_i32("-2147483649"), None);
    assert_eq!(parse_i32(""), None);
    assert_eq!(parse_i32("-"), None);
    assert_eq!(parse_i32("1a"), None);
    assert_eq!(parse_i32(" 1"), None);
}

#[test]
fn unsigned_forms() {
    assert_eq!(parse_u8("255"), Some(255));
    assert_eq!(parse_u8("256"), None);
    assert_eq!(parse_u8("-0"), None);
    assert_eq!(parse_u8("+1"), Some(1));
    assert_eq!(parse_u32("4294967295"), Some(u32::MAX));
    assert_eq!(parse_u32("4294967296"), None);
    assert_eq!(parse_u32("00000000000000000000001"), Some(1));
}

#[test]
fn decimal_forms() {
    let d = |negative, mantissa, scale| Some(Decimal { negative, mantissa, scale });
    assert_eq!(parse_decimal("1.50"), d(false, 150, 2));
    assert_eq!(parse_decimal("-0.5"), d(true, 5, 1));
    assert_eq!(parse_decimal("+3"), d(false, 3, 0));
    assert_eq!(parse_decimal(".5"), d(false, 5, 1));
    assert_eq!(parse_decimal("5."), d(false, 5, 0));
    assert_eq!(parse_decimal("."), None);
    assert_eq!(parse_decimal(""), None);
    assert_eq!(parse_decimal("1.2.3"), None);
    assert_eq!(parse_decimal("1e5"), None);
    assert_eq!(parse_decimal("18446744073709551615"), d(false, u64::MAX, 0));
    assert_eq!(parse_decimal("18446744073709551616"), None);
}

#[test]
fn decimal_text_forms() {
    let t = |negative, mantissa, scale| Decimal { negative, mantissa, scale }.to_text();
    assert_eq!(t(false, 0, 0), "0");
    assert_eq!(t(false, 150, 2), "1.5");
    assert_eq!(t(false, 100, 2), "1");
    assert_eq!(t(true, 5, 3), "-0.005");
    assert_eq!(t(false, 123456, 3), "123.456");
    assert_eq!(t(false, u64::MAX, 0), "18446744073709551615");
}
