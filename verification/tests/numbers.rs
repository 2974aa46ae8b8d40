use falcon_key_file::convert_number;
use falcon_key_file::number::decimal_string;

#[test]
fn decimal_and_hexadecimal_agree() {
    assert_eq!(convert_number("49"), Some(0x31));
    assert_eq!(convert_number("49"), Some(49));
    assert_eq!(convert_number("0x31"), Some(49));
    assert_eq!(convert_number("49"), convert_number("0x31"));
}

#[test]
fn decimal_and_hexadecimal_agree_on_every_value() {
    for value in 0..=u16::MAX {
        let decimal = format!("{}", value);
        let lower = format!("0x{:x}", value);
        let upper = format!("0X{:X}", value);
        assert_eq!(convert_number(&decimal), Some(value));
        assert_eq!(convert_number(&lower), Some(value));
        assert_eq!(convert_number(&upper), Some(value));
    }
}

#[test]
fn numbers_at_the_limits() {
    assert_eq!(convert_number("0"), Some(0));
    assert_eq!(convert_number("65535"), Some(65535));
    assert_eq!(convert_number("65536"), None);
    assert_eq!(convert_number("99999999999999999999999999"), None);
    assert_eq!(convert_number("0xFFFF"), Some(0xFFFF));
    assert_eq!(convert_number("0xffff"), Some(0xFFFF));
    assert_eq!(convert_number("0x10000"), None);
    assert_eq!(convert_number("0XFFFFFFFF"), None);
}

#[test]
fn numbers_with_leading_zeros_and_sign() {
    assert_eq!(convert_number("000048"), Some(48));
    assert_eq!(convert_number("0x0000000030"), Some(48));
    assert_eq!(convert_number("+48"), Some(48));
    assert_eq!(convert_number("0x+30"), Some(48));
    assert_eq!(convert_number("0xC8"), Some(200));
    assert_eq!(convert_number("0Xc8"), Some(200));
}

#[test]
fn tokens_that_are_no_numbers() {
    assert_eq!(convert_number(""), None);
    assert_eq!(convert_number("+"), None);
    assert_eq!(convert_number("-1"), None);
    assert_eq!(convert_number("0x"), None);
    assert_eq!(convert_number("0X"), None);
    assert_eq!(convert_number("0x+"), None);
    assert_eq!(convert_number("x10"), None);
    assert_eq!(convert_number("12a"), None);
    assert_eq!(convert_number("1 2"), None);
    assert_eq!(convert_number("0xG1"), None);
    assert_eq!(convert_number("0x0x10"), None);
    assert_eq!(convert_number("++1"), None);
    assert_eq!(convert_number("4.5"), None);
    assert_eq!(convert_number("\u{0664}\u{0669}"), None);
    assert_eq!(convert_number("1f"), None);
}

#[test]
fn decimal_strings() {
    assert_eq!(decimal_string(0), "0");
    assert_eq!(decimal_string(7), "7");
    assert_eq!(decimal_string(10), "10");
    assert_eq!(decimal_string(1024), "1024");
    assert_eq!(decimal_string(65535), "65535");
    assert_eq!(decimal_string(usize::MAX), format!("{}", usize::MAX));
}
