use xmip_core_transport_mysql::hex::{column_bytes, from_hex_literal, hex, hex_literal, is_text};

#[test]
fn bytes_round_trip_through_the_hex_form() {
    let bytes: Vec<u8> = (0..=255).collect();
    let literal = hex_literal(&bytes);
    assert!(literal.starts_with("X'000102"));
    assert!(literal.ends_with("feff'"));
    assert_eq!(from_hex_literal(&literal), Some(bytes.clone()));
    assert_eq!(column_bytes(literal), bytes);
    assert_eq!(hex_literal(b""), "X''");
    assert_eq!(from_hex_literal("X''"), Some(Vec::new()));
    assert_eq!(from_hex_literal("0xFFfe"), Some(vec![0xff, 0xfe]));
    assert_eq!(from_hex_literal("x'0a'"), Some(vec![0x0a]));
}

#[test]
fn what_is_not_a_hex_form_is_text() {
    assert_eq!(from_hex_literal("plain"), None);
    assert_eq!(from_hex_literal("X'abc'"), None, "an odd digit count");
    assert_eq!(from_hex_literal("X'zz'"), None, "not hex");
    assert_eq!(from_hex_literal("X'ab"), None, "never closed");
    assert_eq!(from_hex_literal("0x"), Some(Vec::new()));
    assert_eq!(column_bytes("plain".to_string()), b"plain");
}

#[test]
fn bytes_come_back_from_the_prefixed_form_too() {
    let bytes: Vec<u8> = (0..=255).rev().collect();
    let spelled = format!("0x{}", hex(&bytes));
    assert_eq!(column_bytes(spelled), bytes);
}

#[test]
fn text_is_utf8_without_a_nul() {
    assert!(is_text(b""));
    assert!(is_text("caf\u{e9}".as_bytes()));
    assert!(!is_text(b"a\0b"));
    assert!(!is_text(&[0xff, 0xfe]));
}
