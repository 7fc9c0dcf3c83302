use ecat::number::{push_decimal, push_signed_decimal, read_i32, read_u8};

fn decimal_of(n: u64) -> String {
    let mut out = String::new();
    push_decimal(&mut out, n);
    out
}

fn signed_decimal_of(n: i32) -> String {
    let mut out = String::new();
    push_signed_decimal(&mut out, n);
    out
}

#[test]
fn read_u8_takes_bytes_only() {
    assert_eq!(read_u8("0"), Some(0));
    assert_eq!(read_u8("7"), Some(7));
    assert_eq!(read_u8("255"), Some(255));
    assert_eq!(read_u8("+255"), Some(255));
    assert_eq!(read_u8("000"), Some(0));
    assert_eq!(read_u8("0000000000000000000000099"), Some(99));
    for bad in ["", "+", "-", "256", "1000", "-1", "-0", "1a", "a", " 1", "1 ", "++1", "١"] {
        assert_eq!(read_u8(bad), None, "numeral {:?}", bad);
    }
}

#[test]
fn read_i32_takes_the_whole_range() {
    assert_eq!(read_i32("0"), Some(0));
    assert_eq!(read_i32("-0"), Some(0));
    assert_eq!(read_i32("+0"), Some(0));
    assert_eq!(read_i32("12"), Some(12));
    assert_eq!(read_i32("-12"), Some(-12));
    assert_eq!(read_i32("2147483647"), Some(i32::MAX));
    assert_eq!(read_i32("-2147483648"), Some(i32::MIN));
    assert_eq!(read_i32("-2147483647"), Some(-2147483647));
    assert_eq!(read_i32("00000000000000000002147483647"), Some(i32::MAX));
    for bad in ["", "+", "-", "2147483648", "-2147483649", "99999999999999999999999", "1-", "- 1", "0x1", "1e3"] {
        assert_eq!(read_i32(bad), None, "numeral {:?}", bad);
    }
}

#[test]
fn read_i32_agrees_with_the_standard_parser() {
    for text in ["0", "-0", "+0", "5", "-5", "+5", "", "+", "-", "a", "2147483647", "2147483648",
        "-2147483648", "-2147483649", "007", "-007", " 7", "7 ", "+-7", "--7", "７"] {
        assert_eq!(read_i32(text), text.parse::<i32>().ok(), "numeral {:?}", text);
    }
    for text in ["0", "+0", "-0", "255", "256", "+255", "007", "", "+", "a"] {
        assert_eq!(read_u8(text), text.parse::<u8>().ok(), "numeral {:?}", text);
    }
}

#[test]
fn push_decimal_writes_without_leading_zeros() {
    assert_eq!(decimal_of(0), "0");
    assert_eq!(decimal_of(9), "9");
    assert_eq!(decimal_of(10), "10");
    assert_eq!(decimal_of(1234567890), "1234567890");
    assert_eq!(decimal_of(u64::MAX), "18446744073709551615");
}

#[test]
fn push_signed_decimal_writes_the_sign() {
    assert_eq!(signed_decimal_of(0), "0");
    assert_eq!(signed_decimal_of(17), "17");
    assert_eq!(signed_decimal_of(-17), "-17");
    assert_eq!(signed_decimal_of(i32::MAX), "2147483647");
    assert_eq!(signed_decimal_of(i32::MIN), "-2147483648");
}

#[test]
fn push_decimal_goes_behind_what_is_there() {
    let mut out = String::from("n=");
    push_decimal(&mut out, 42);
    push_signed_decimal(&mut out, -1);
    assert_eq!(out, "n=42-1");
}
