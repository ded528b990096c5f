use xmip_core_transport_mysql::client::{
    quote_identifier, quote_literal, refused, sql_error, Client, Progress, Query, QueryResult,
};
use xmip_core_transport_mysql::error::TransportError;
use xmip_core_transport_mysql::handshake::{
    decode_response, encode_handshake, scramble, HandshakeV10, CAPABILITIES, NATIVE_PASSWORD,
};
use xmip_core_transport_mysql::result::{
    encode_column, encode_column_count, encode_reply, encode_row, Reply,
};
use xmip_core_transport_mysql::wire::{cstring, decode_command, read_packet, Command};
use xmip_core_transport_mysql::Login;

fn greeting() -> HandshakeV10 {
    HandshakeV10 {
        server_version: "8.4.0".into(),
        connection_id: 17,
        nonce: vec![b'n'; 20],
        capabilities: CAPABILITIES,
        plugin: NATIVE_PASSWORD.into(),
    }
}

fn greeted() -> Client {
    let (client, _) = Client::connect(
        Some((0, encode_handshake(&greeting()))),
        "orders",
        &Login::new("xmip", "secret"),
    )
    .expect("greeting");
    client
}

fn okay(affected_rows: u64) -> Reply {
    Reply::Okay {
        affected_rows,
        last_insert_id: 0,
        status: 2,
        warnings: 0,
    }
}

fn eof() -> Vec<u8> {
    encode_reply(&Reply::Eof {
        warnings: 0,
        status: 2,
    })
}

fn fed(payloads: Vec<Vec<u8>>) -> Result<QueryResult, TransportError> {
    let mut query = Query::Opening;
    let mut packets = payloads.into_iter();
    loop {
        match query.next(packets.next().map(|payload| (1, payload)))? {
            Progress::Waiting(next) => query = next,
            Progress::Complete(result) => {
                assert!(packets.next().is_none(), "nothing is left");
                return Ok(result);
            }
        }
    }
}

#[test]
fn quoting_escapes_with_a_backslash_and_backticks_double() {
    assert_eq!(quote_literal("it's"), "'it\\'s'");
    assert_eq!(quote_literal("back\\slash"), "'back\\\\slash'");
    assert_eq!(quote_literal("a\nb\r\0\u{1a}"), "'a\\nb\\r\\0\\Z'");
    assert_eq!(quote_literal(""), "''");
    assert_eq!(quote_identifier("in`box"), "`in``box`");
    assert_eq!(quote_identifier("Inbox"), "`Inbox`");
}

#[test]
fn an_error_is_judged_by_its_code_and_class() {
    assert!(sql_error(1040, "08004", "Too many connections").retryable);
    assert!(sql_error(1213, "40001", "Deadlock found").retryable);
    assert!(sql_error(1205, "HY000", "Lock wait timeout exceeded").retryable);
    assert!(sql_error(2013, "08S01", "Lost connection").retryable);
    assert!(!sql_error(1045, "28000", "Access denied").retryable);
    assert!(!sql_error(1146, "42S02", "Table doesn't exist").retryable);
    assert!(!sql_error(0, "", "nothing").retryable);
    assert!(refused(Reply::Eof {
        warnings: 0,
        status: 0
    })
    .message
    .contains("expected"));
}

#[test]
fn an_error_says_its_code_its_state_and_its_message() {
    assert_eq!(
        sql_error(1146, "42S02", "no table").message,
        "the server answered 1146 (42S02): no table"
    );
    for code in [1040, 1053, 1077, 1205, 1213, 1317] {
        assert!(sql_error(code, "HY000", "").retryable);
    }
    assert!(!sql_error(1041, "HY000", "").retryable);
}

#[test]
fn a_reply_that_is_no_error_is_written_out() {
    assert_eq!(
        refused(Reply::Eof {
            warnings: 3,
            status: 2
        })
        .message,
        "Eof { warnings: 3, status: 2 } where an error was expected"
    );
    assert_eq!(
        refused(okay(12)).message,
        "Ok { affected_rows: 12, last_insert_id: 0, status: 2, warnings: 0 } where an error was \
         expected"
    );
    assert_eq!(
        refused(Reply::Data(vec![1, 22, 255])).message,
        "Data([1, 22, 255]) where an error was expected"
    );
    assert_eq!(
        refused(Reply::Data(Vec::new())).message,
        "Data([]) where an error was expected"
    );
    let error = refused(Reply::Error {
        code: 1205,
        state: "HY000".into(),
        message: "locked".into(),
    });
    assert!(error.retryable);
    assert_eq!(error.message, "the server answered 1205 (HY000): locked");
}

#[test]
fn a_greeting_is_answered_with_the_scrambled_password() {
    let (client, bytes) = Client::connect(
        Some((0, encode_handshake(&greeting()))),
        "orders",
        &Login::new("xmip", "secret"),
    )
    .expect("greeting");
    assert_eq!(client.server_version(), "8.4.0");
    assert_eq!(client.connection_id(), 17);
    let (sequence, payload) = read_packet(&mut bytes.as_slice())
        .expect("read")
        .expect("one");
    assert_eq!(sequence, 1);
    let response = decode_response(&payload).expect("response");
    assert_eq!(response.user, "xmip");
    assert_eq!(response.database, "orders");
    assert_eq!(response.plugin, NATIVE_PASSWORD);
    assert_eq!(response.auth_response, scramble("secret", &[b'n'; 20]));
}

#[test]
fn a_connection_that_does_not_open_with_a_greeting_is_refused() {
    let login = Login::new("xmip", "secret");
    let closed = Client::connect(None, "orders", &login).err().expect("closed");
    assert_eq!(closed.message, "the server closed before the greeting");
    assert!(!closed.retryable);
    let full = encode_reply(&Reply::Error {
        code: 1040,
        state: "08004".into(),
        message: "Too many connections".into(),
    });
    let error = Client::connect(Some((0, full)), "orders", &login)
        .err()
        .expect("too many");
    assert!(error.retryable);
    let old = encode_handshake(&HandshakeV10 {
        capabilities: 0x8000,
        ..greeting()
    });
    let error = Client::connect(Some((0, old)), "orders", &login)
        .err()
        .expect("not 4.1");
    assert_eq!(error.message, "a server without protocol 4.1");
}

#[test]
fn a_login_is_answered_once_or_switched_to_the_native_plugin() {
    let client = greeted();
    let login = Login::new("xmip", "secret");
    assert_eq!(
        client
            .logged_in(Some((2, encode_reply(&okay(0)))), &login)
            .expect("in"),
        None
    );
    let mut switch = vec![0xfe];
    cstring(&mut switch, NATIVE_PASSWORD);
    switch.extend_from_slice(b"another-nonce-here-x\0");
    let bytes = client
        .logged_in(Some((2, switch)), &login)
        .expect("switched")
        .expect("an answer");
    let (sequence, payload) = read_packet(&mut bytes.as_slice())
        .expect("read")
        .expect("one");
    assert_eq!(sequence, 3);
    assert_eq!(payload, scramble("secret", b"another-nonce-here-x"));
}

#[test]
fn a_login_that_is_not_let_in_says_why() {
    let client = greeted();
    let login = Login::new("xmip", "secret");
    let told = |packet| client.logged_in(packet, &login).err().expect("not in").message;
    assert_eq!(told(None), "the server closed before the login's answer");
    assert_eq!(
        told(Some((2, vec![1, 4]))),
        "the server asks for more than the native password gives"
    );
    assert_eq!(
        told(Some((2, eof()))),
        "the server asks for the pre-4.1 password, which this crate does not speak"
    );
    assert_eq!(
        told(Some((2, vec![7]))),
        "the server answered the login with data"
    );
    assert_eq!(
        told(Some((
            2,
            encode_reply(&Reply::Error {
                code: 1045,
                state: "28000".into(),
                message: "no".into()
            })
        ))),
        "the server answered 1045 (28000): no"
    );
    let mut switch = vec![0xfe];
    cstring(&mut switch, "sha256_password");
    assert_eq!(
        told(Some((2, switch))),
        "the server asks for sha256_password, and this crate speaks mysql_native_password only"
    );
}

#[test]
fn a_query_is_numbered_from_zero_and_a_goodbye_too() {
    let client = greeted();
    let (bytes, query) = client.query("SELECT 1");
    assert!(matches!(query, Query::Opening));
    let (sequence, payload) = read_packet(&mut bytes.as_slice())
        .expect("read")
        .expect("one");
    assert_eq!(sequence, 0);
    assert_eq!(
        decode_command(&payload).expect("command"),
        Command::Query("SELECT 1".into())
    );
    assert_eq!(client.close(), [1, 0, 0, 0, 1]);
}

#[test]
fn a_result_set_is_gathered_and_a_statement_is_its_count() {
    let result = fed(vec![
        encode_column_count(2),
        encode_column("id"),
        encode_column("payload"),
        eof(),
        encode_row(&[Some("41".into()), None]),
        encode_row(&[Some(String::new()), Some("x".into())]),
        eof(),
    ])
    .expect("rows");
    assert_eq!(result.columns, ["id", "payload"]);
    assert_eq!(
        result.rows,
        [
            vec![Some("41".to_string()), None],
            vec![Some(String::new()), Some("x".to_string())]
        ]
    );
    assert_eq!(result.affected_rows, 0);
    let counted = fed(vec![encode_reply(&okay(3))]).expect("count");
    assert_eq!(
        counted,
        QueryResult {
            affected_rows: 3,
            ..QueryResult::default()
        }
    );
}

#[test]
fn an_answer_that_breaks_the_protocol_says_where() {
    let told = |payloads| fed(payloads).expect_err("broken").message;
    let refusal = || {
        encode_reply(&Reply::Error {
            code: 1317,
            state: "70100".into(),
            message: "interrupted".into(),
        })
    };
    assert_eq!(
        told(vec![]),
        "the server closed before the query's answer"
    );
    assert_eq!(told(vec![eof()]), "EOF where a result set should open");
    assert_eq!(
        told(vec![encode_column_count(1)]),
        "the server closed before a column definition"
    );
    assert_eq!(
        told(vec![encode_column_count(1), encode_column("id")]),
        "the server closed before the end of the columns"
    );
    assert_eq!(
        told(vec![
            encode_column_count(1),
            encode_column("id"),
            encode_row(&[Some("1".into())])
        ]),
        "no EOF after the column definitions"
    );
    assert_eq!(
        told(vec![encode_column_count(1), encode_column("id"), eof()]),
        "the server closed before a row"
    );
    for at in 0..3 {
        let mut payloads = vec![encode_column_count(1), encode_column("id"), eof()];
        if at == 0 {
            payloads.clear();
        }
        if at == 1 {
            payloads.truncate(2);
        }
        payloads.push(refusal());
        let error = fed(payloads).expect_err("refused");
        assert!(error.retryable);
        assert_eq!(
            error.message,
            "the server answered 1317 (70100): interrupted"
        );
    }
}
