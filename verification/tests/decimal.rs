use tenshi_no_hana::decimal::{parse_u16, parse_u8};

#[test]
fn every_u8_is_read() {
    for n in 0..=255u8 {
        assert_eq!(parse_u8(&format!("{}", n)), Some(n));
    }
}

#[test]
fn every_u16_is_read() {
    for n in 0..=65535u16 {
        assert_eq!(parse_u16(&format!("{}", n)), Some(n));
    }
}

#[test]
fn leading_zeros_count_as_digits_only() {
    assert_eq!(parse_u8("000"), Some(0));
    assert_eq!(parse_u8("007"), Some(7));
    assert_eq!(parse_u8("042"), Some(42));
    assert_eq!(parse_u8("0042"), None);
    assert_eq!(parse_u16("00080"), Some(80));
    assert_eq!(parse_u16("00000"), Some(0));
    assert_eq!(parse_u16("000080"), None);
}

#[test]
fn too_large_numbers_are_refused() {
    assert_eq!(parse_u8("255"), Some(255));
    assert_eq!(parse_u8("256"), None);
    assert_eq!(parse_u8("999"), None);
    assert_eq!(parse_u16("65535"), Some(65535));
    assert_eq!(parse_u16("65536"), None);
    assert_eq!(parse_u16("99999"), None);
}

#[test]
fn other_characters_are_refused() {
    for s in ["", " ", "-1", "+1", "1 ", " 1", "1a", "/", ":", "0x1", "é", "٣", "1é", "\u{0}"] {
        assert_eq!(parse_u8(s), None);
        assert_eq!(parse_u16(s), None);
    }
}
