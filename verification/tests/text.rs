use shin_tl::chars::{str_chars, utf8_width};
use shin_tl::digits::{push_decimal, push_decimal_u8, push_hex8, push_hex_upper_prefixed};
use shin_tl::snr::layout::layout_dump::CharKind;
use shin_tl::snr::reader::{var_int_size, Reader, VarIntSize};
use shin_tl::snr::text::{decode_utf8_zstring, encode_utf8_zstring};
use shin_tl::text::is_extended;
use shin_tl::versions::{LengthKind, NumberStyle};

#[test]
fn utf8_zstring_decode() {
    assert_eq!(decode_utf8_zstring(b"abc\0\0").ok(), Some("abc"));
    assert_eq!(decode_utf8_zstring("あ\0".as_bytes()).ok(), Some("あ"));
    assert_eq!(decode_utf8_zstring(b"").ok(), Some(""));
    assert_eq!(decode_utf8_zstring(b"a\0b\0").ok(), Some("a\0b"));
    assert!(decode_utf8_zstring(&[0xff, 0]).is_err());
    assert!(decode_utf8_zstring(&[0xe3, 0x81, 0]).is_err());
}

#[test]
fn utf8_zstring_encode() {
    assert_eq!(encode_utf8_zstring("é"), vec![0xc3, 0xa9, 0]);
    assert_eq!(encode_utf8_zstring(""), vec![0]);
    let back = encode_utf8_zstring("ok");
    assert_eq!(decode_utf8_zstring(&back).ok(), Some("ok"));
}

#[test]
fn sjis_lead_bytes() {
    assert!(is_extended(0x81));
    assert!(is_extended(0x9f));
    assert!(is_extended(0xe0));
    assert!(is_extended(0xfc));
    assert!(!is_extended(0x80));
    assert!(!is_extended(0xa0));
    assert!(!is_extended(0xdf));
    assert!(!is_extended(0xfd));
    assert!(!is_extended(0x41));
}

#[test]
fn char_kinds() {
    for k in [CharKind::Regular, CharKind::Furigana, CharKind::BoldDot] {
        assert_eq!(CharKind::from_u8(k.to_u8()), Some(k));
    }
    assert_eq!(CharKind::BoldDot.to_u8(), 2);
    assert_eq!(CharKind::from_u8(3), None);
}

#[test]
fn var_int_sizes() {
    assert!(matches!(var_int_size(0x7f), VarIntSize::Zero));
    assert!(matches!(var_int_size(0x80), VarIntSize::One));
    assert!(matches!(var_int_size(0x9f), VarIntSize::Two));
    assert!(matches!(var_int_size(0xa0), VarIntSize::Three));
    assert!(matches!(var_int_size(0xb5), VarIntSize::Zero));
    assert!(matches!(var_int_size(0xc1), VarIntSize::One));
    assert!(matches!(var_int_size(0xd0), VarIntSize::Zero));
    assert!(matches!(var_int_size(0xe0), VarIntSize::Zero));
    assert_eq!(usize::from(VarIntSize::Three), 3);
}

#[test]
fn reader_takes_values() {
    let data = [0x34, 0x12, 0x78, 0x56, 0x34, 0x12, 3, 0x85, 0x01, 0x05, 2, 0, b'h', b'i'];
    let mut r = Reader::new(&data, 0);
    assert_eq!(r.take_u16(), 0x1234);
    assert_eq!(r.take_u32(), 0x12345678);
    assert_eq!(r.take_number(NumberStyle::VarInt), 3);
    assert_eq!(r.take_number(NumberStyle::VarInt), 0x0185);
    assert_eq!(r.position(), 9);
    assert_eq!(r.take_u8(), 5);
    assert_eq!(r.take_length(LengthKind::U16Length), 2);
    assert_eq!(r.take(2), b"hi");
    assert_eq!(r.size(), data.len());
    let mut again = r.rewound(0);
    assert_eq!(again.take_number(NumberStyle::U16), 0x1234);
}

#[test]
fn reader_strings() {
    let data = [3, b'a', b'b', 0, 4, 0, b'x', 0, b'y', 0];
    let mut r = Reader::new(&data, 0);
    assert_eq!(r.take_string(LengthKind::U8Length), b"ab\0");
    assert_eq!(r.take_string_array(LengthKind::U8Length), &[0, b'x', 0, b'y']);
}

#[test]
fn reader_has_instr() {
    let data = [0u8; 20];
    let r = Reader::new(&data, 0);
    assert!(r.has_instr());
    let r = Reader::new(&data, 4);
    assert!(!r.has_instr());
    let data = [0u8, 0, 1, 0];
    assert!(Reader::new(&data, 0).has_instr());
}

#[test]
fn digits() {
    let mut s = String::from("n=");
    push_decimal(&mut s, 1234567890123);
    assert_eq!(s, "n=1234567890123");
    let mut s = String::new();
    push_decimal(&mut s, 0);
    push_decimal_u8(&mut s, 255);
    assert_eq!(s, "0255");
    let mut s = String::new();
    push_hex8(&mut s, 0xabc);
    assert_eq!(s, "00000abc");
    let mut s = String::new();
    push_hex_upper_prefixed(&mut s, 0xabc, 8);
    assert_eq!(s, "0x000ABC");
    let mut s = String::new();
    push_hex_upper_prefixed(&mut s, 0x12345, 2);
    assert_eq!(s, "0x12345");
}

#[test]
fn chars() {
    assert_eq!(utf8_width('a'), 1);
    assert_eq!(utf8_width('é'), 2);
    assert_eq!(utf8_width('あ'), 3);
    assert_eq!(utf8_width('😀'), 4);
    assert_eq!(str_chars("aあ"), vec!['a', 'あ']);
}
