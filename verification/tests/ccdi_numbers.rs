use ax25_node_core::radio::tait::ccdi::{
    hex_upper, parse_dec_u16, parse_hex_u8, parse_signed_i32,
};

#[test]
fn hex_upper_covers_all_nibbles() {
    assert_eq!(hex_upper(0x0), b'0');
    assert_eq!(hex_upper(0x9), b'9');
    assert_eq!(hex_upper(0xA), b'A');
    assert_eq!(hex_upper(0xF), b'F');
}

#[test]
fn parse_hex_u8_accepts_both_cases_and_rejects_junk() {
    assert_eq!(parse_hex_u8(b"2F"), Some(0x2F));
    assert_eq!(parse_hex_u8(b"2f"), Some(0x2F));
    assert_eq!(parse_hex_u8(b"05"), Some(0x05));
    assert_eq!(parse_hex_u8(b"ZZ"), None);
    assert_eq!(parse_hex_u8(b""), None);
    assert_eq!(parse_hex_u8(b"123"), None);
}

#[test]
fn parse_dec_u16_is_digits_only() {
    assert_eq!(parse_dec_u16(b"064"), Some(64));
    assert_eq!(parse_dec_u16(b"0"), Some(0));
    assert_eq!(parse_dec_u16(b"-5"), None);
    assert_eq!(parse_dec_u16(b"1a"), None);
}

#[test]
fn parse_signed_i32_handles_sign() {
    assert_eq!(parse_signed_i32(b"-456"), Some(-456));
    assert_eq!(parse_signed_i32(b"1200"), Some(1200));
    assert_eq!(parse_signed_i32(b"+7"), Some(7));
    assert_eq!(parse_signed_i32(b""), None);
    assert_eq!(parse_signed_i32(b"-"), None);
    assert_eq!(parse_signed_i32(b"12x"), None);
}
