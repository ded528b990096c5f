use xmip_core_transport_mysql::insert::parse_insert;
use xmip_core_transport_mysql::{insert_statement, quote_literal};

#[test]
fn an_insert_of_one_column_is_taken_apart() {
    assert_eq!(
        parse_insert("INSERT INTO inbox (payload) VALUES ('it\\'s here');"),
        Some(("inbox".into(), "payload".into(), b"it's here".to_vec()))
    );
    assert_eq!(
        parse_insert("insert into `In box` ( `Payload` ) values ( '' )"),
        Some(("In box".into(), "Payload".into(), Vec::new()))
    );
    assert_eq!(
        parse_insert("INSERT INTO orders.inbox (payload) VALUES ('a\\nb''c\\\\d\\%e')"),
        Some((
            "orders.inbox".into(),
            "payload".into(),
            b"a\nb'c\\d\\%e".to_vec()
        ))
    );
    assert_eq!(
        parse_insert("INSERT INTO inbox (payload) VALUES (X'fffe')"),
        Some(("inbox".into(), "payload".into(), vec![0xff, 0xfe]))
    );
    assert!(parse_insert("INSERT INTO inbox (a, b) VALUES ('x', 'y')").is_none());
    assert!(parse_insert("INSERT INTO inbox (a) VALUES ('open").is_none());
    assert!(parse_insert("INSERT INTO inbox (a) VALUES (X'abc')").is_none());
    assert!(parse_insert("UPDATE inbox SET a = 'x'").is_none());
}

#[test]
fn every_escape_is_undone() {
    assert_eq!(
        parse_insert("INSERT INTO t (c) VALUES ('\\0\\n\\r\\t\\b\\Z\\_\\x')"),
        Some((
            "t".into(),
            "c".into(),
            b"\0\n\r\t\x08\x1a\\_x".to_vec()
        ))
    );
}

#[test]
fn any_text_comes_back_from_its_literal() {
    for text in [
        "",
        "it's",
        "back\\slash \\% \\_",
        "a\nb\r\0\u{1a}\t\u{8}",
        "caf\u{e9} \u{1f980}",
        "X'00'",
        "'); DROP",
    ] {
        let sql = format!("INSERT INTO t (c) VALUES ({})", quote_literal(text));
        assert_eq!(
            parse_insert(&sql),
            Some(("t".into(), "c".into(), text.as_bytes().to_vec()))
        );
    }
}

#[test]
fn the_statement_of_a_send_is_taken_apart_again() {
    for bytes in [&b"it's \\here"[..], b"", &[0xff, 0xfe], b"a\0b"] {
        let sql = insert_statement("In box", "pay.load", bytes);
        assert_eq!(
            parse_insert(&sql),
            Some(("In box".into(), "pay.load".into(), bytes.to_vec()))
        );
    }
    assert_eq!(
        insert_statement("inbox", "payload", b"x'y"),
        "INSERT INTO `inbox` (`payload`) VALUES ('x\\'y')"
    );
    assert_eq!(
        insert_statement("inbox", "payload", &[0, 0xab]),
        "INSERT INTO `inbox` (`payload`) VALUES (X'00ab')"
    );
}

#[test]
fn a_keyword_is_a_word_of_its_own() {
    assert!(parse_insert("INSERTINTO t (c) VALUES ('x')").is_none());
    assert!(parse_insert("INSERT INTO t (c) VALUESX ('x')").is_none());
    assert!(parse_insert("INSERT INTO t (c) VALUES ('x') ; SELECT 1").is_none());
    assert!(parse_insert("INSERT INTO t (c) VALUES ('x';").is_none());
    assert_eq!(
        parse_insert(" \tInsert\u{a0}Into t(c)Values('x') ; "),
        Some(("t".into(), "c".into(), b"x".to_vec()))
    );
}

#[test]
fn a_bare_identifier_is_letters_of_any_script() {
    assert_eq!(
        parse_insert("INSERT INTO stra\u{df}e_1 (\u{540d}) VALUES ('x')"),
        Some(("stra\u{df}e_1".into(), "\u{540d}".into(), b"x".to_vec()))
    );
    assert!(parse_insert("INSERT INTO a-b (c) VALUES ('x')").is_none());
    assert!(parse_insert("INSERT INTO `open (c) VALUES ('x')").is_none());
    assert!(parse_insert("INSERT INTO (c) VALUES ('x')").is_none());
}
