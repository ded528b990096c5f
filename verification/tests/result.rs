use xmip_core_transport_mysql::result::{
    decode_column, decode_column_count, decode_in_result_set, decode_reply, decode_row,
    encode_column, encode_column_count, encode_reply, encode_row, Reply, EOF_HEADER, ERR_HEADER,
    NULL_VALUE, OK_HEADER,
};

#[test]
fn every_reply_round_trips() {
    for reply in [
        Reply::Okay {
            affected_rows: 1,
            last_insert_id: 300,
            status: 2,
            warnings: 0,
        },
        Reply::Error {
            code: 1045,
            state: "28000".into(),
            message: "Access denied for user 'xmip'@'localhost'".into(),
        },
        Reply::Eof {
            warnings: 0,
            status: 2,
        },
        Reply::Data(vec![3]),
        Reply::Data(vec![0xfe, 1, 2, 3, 4, 5, 6, 7, 8]),
    ] {
        let bytes = encode_reply(&reply);
        assert_eq!(decode_reply(&bytes).expect("reply"), reply);
    }
    assert!(decode_reply(&[]).is_err());
    assert!(decode_reply(&[OK_HEADER, 1]).is_err(), "breaks off");
    assert_eq!(
        decode_in_result_set(&[0, 2, b'4', b'1']).expect("a row"),
        Reply::Data(vec![0, 2, b'4', b'1']),
        "an empty first value is not OK"
    );
    assert!(matches!(
        decode_in_result_set(&[EOF_HEADER, 0, 0, 2, 0]).expect("eof"),
        Reply::Eof { .. }
    ));
    assert_eq!(
        decode_reply(&[ERR_HEADER, 0x15, 0x04, b'n', b'o']).expect("no state"),
        Reply::Error {
            code: 1045,
            state: String::new(),
            message: "no".into()
        }
    );
    let short_state = encode_reply(&Reply::Error {
        code: 1,
        state: "HY".into(),
        message: String::new(),
    });
    assert_eq!(&short_state[3..9], b"#HY000");
}

#[test]
fn a_result_set_is_a_count_definitions_and_rows() {
    assert_eq!(
        decode_column_count(&encode_column_count(2)).expect("count"),
        2
    );
    assert!(decode_column_count(&[2, 0]).is_err(), "something after it");
    assert!(decode_column_count(&[NULL_VALUE]).is_err());
    assert_eq!(
        decode_column(&encode_column("payload")).expect("name"),
        "payload"
    );
    assert!(decode_column(&[3, b'd', b'e']).is_err(), "breaks off");
    let row = vec![Some("41".to_string()), None, Some(String::new())];
    let bytes = encode_row(&row);
    assert_eq!(bytes, [2, b'4', b'1', NULL_VALUE, 0]);
    assert_eq!(decode_row(&bytes, 3).expect("row"), row);
    assert!(decode_row(&bytes, 4).is_err(), "fewer values than columns");
    assert!(decode_row(&[5, b'x'], 1).is_err(), "breaks off");
}

#[test]
fn a_row_that_claims_more_columns_than_memory_is_an_error() {
    assert!(decode_row(&[], usize::MAX).is_err());
}

#[test]
fn a_long_state_is_cut_to_five() {
    let reply = encode_reply(&Reply::Error {
        code: 0x0102,
        state: "HY000X".into(),
        message: "m".into(),
    });
    assert_eq!(reply, [0xff, 2, 1, b'#', b'H', b'Y', b'0', b'0', b'0', b'm']);
}

#[test]
fn a_definition_is_these_bytes() {
    assert_eq!(
        encode_column("id"),
        [
            3, b'd', b'e', b'f', 0, 0, 0, 2, b'i', b'd', 2, b'i', b'd', 12, 45, 0, 0xff, 0xff,
            0xff, 0xff, 0xfd, 0, 0, 0, 0, 0
        ]
    );
}

#[test]
fn an_error_that_breaks_off_in_its_state_is_an_error() {
    assert!(decode_reply(&[ERR_HEADER, 1]).is_err());
    assert!(decode_reply(&[ERR_HEADER, 1, 0, b'#', b'4', b'2']).is_err());
    assert!(decode_reply(&[EOF_HEADER, 0]).is_err());
}
