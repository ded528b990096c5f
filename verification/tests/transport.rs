use std::time::Duration;
use xmip_core_transport_mysql::client::{Client, Progress, QueryResult};
use xmip_core_transport_mysql::error::TransportError;
use xmip_core_transport_mysql::handshake::{
    encode_handshake, HandshakeV10, CAPABILITIES, NATIVE_PASSWORD,
};
use xmip_core_transport_mysql::session::{fresh_nonce, greet, Answer, Event, Session};
use xmip_core_transport_mysql::wire::{cstring, frame, read_packet};
use xmip_core_transport_mysql::{insert_statement, session, MysqlTransport, DEFAULT_QUERY};

const PEER: &str = "127.0.0.1:40000";

fn packet(bytes: &[u8]) -> Option<(u8, Vec<u8>)> {
    let mut stream = bytes;
    read_packet(&mut stream).expect("a packet")
}

/// Both ends of a connection on which `near` logs in to `far`.
fn meet(
    near: &MysqlTransport,
    database: &str,
    far: &MysqlTransport,
) -> (
    Result<Client, TransportError>,
    Result<Session, TransportError>,
) {
    let nonce = fresh_nonce(7, PEER, 1);
    let (client, response) =
        Client::connect(packet(&greet(1, &nonce)), database, &near.login).expect("greeting");
    let verdict = Session::accept(packet(&response), PEER, "127.0.0.1", &nonce, &far.login);
    let reply = verdict.reply.expect("a reply");
    let entered = client
        .logged_in(packet(&reply), &near.login)
        .map(|_| client);
    (entered, verdict.outcome)
}

fn query(
    client: &Client,
    session: &Session,
    sql: &str,
    answering: impl Fn(&str) -> Option<Answer>,
) -> (Result<QueryResult, TransportError>, Event) {
    let (request, mut query) = client.query(sql);
    let (seen, sql) = session
        .next_query(packet(&request))
        .expect("command")
        .expect("query");
    let (bytes, event) = session.respond(seen, &sql, answering(&sql));
    let mut stream = bytes.as_slice();
    loop {
        match query.next(read_packet(&mut stream).expect("read")) {
            Ok(Progress::Waiting(next)) => query = next,
            Ok(Progress::Complete(result)) => return (Ok(result), event),
            Err(error) => return (Err(error), event),
        }
    }
}

#[test]
fn a_receive_runs_the_query_and_each_row_is_a_stream() {
    let far_end = MysqlTransport::new("127.0.0.1:0", "orders", "xmip")
        .with_password("secret")
        .timing_out_after(Duration::from_secs(2));
    let receiver = MysqlTransport::new("127.0.0.1:3306", "orders", "xmip")
        .with_password("secret")
        .with_query("SELECT id, kind, payload FROM inbox ORDER BY id")
        .timing_out_after(Duration::from_secs(2));
    let (client, session) = meet(&receiver, &receiver.database, &far_end);
    let client = client.expect("entering");
    let session = session.expect("accepting").with_table(
        &["id", "kind", "payload"],
        &[
            &[Some("41"), Some("order"), Some("ISA*00*")],
            &[Some("42"), None, Some("0xfffe")],
            &[None, Some(""), None],
        ],
    );
    assert_eq!(session.user(), "xmip");
    assert_eq!(session.database(), "orders");
    let (result, event) = query(&client, &session, &receiver.query, |_| None);
    assert_eq!(
        event,
        Event::Selected("SELECT id, kind, payload FROM inbox ORDER BY id".into())
    );
    assert!(session.next_query(packet(&client.close())).expect("quit").is_none());
    let arrived = receiver.streams(result.expect("receiving"));
    assert_eq!(arrived.len(), 3);
    assert_eq!(arrived[0].bytes, b"ISA*00*");
    assert!(arrived[0].origin_uri.ends_with("/orders?row=41"));
    assert_eq!(arrived[1].bytes, [0xff, 0xfe], "a hex form is the bytes");
    assert!(arrived[1].origin_uri.ends_with("?row=42"));
    assert!(arrived[2].bytes.is_empty(), "NULL is an empty Stream");
    assert!(arrived[2].origin_uri.ends_with("?row=2"));
}

#[test]
fn a_send_inserts_the_stream_as_one_column_and_the_login_is_checked() {
    let far_end = MysqlTransport::new("127.0.0.1:0", "orders", "xmip").with_password("secret");
    let address = "127.0.0.1:3306";
    let near = MysqlTransport::new(address, "orders", "xmip").with_password("secret");
    let sent = |target: &str, bytes: &[u8]| {
        let (server, database, table, column) = near.resolve(target).expect("a target");
        assert_eq!(server, address);
        let (client, session) = meet(&near, &database, &far_end);
        let session = session.expect("accepting");
        let (result, event) = query(
            &client.expect("entering"),
            &session,
            &insert_statement(&table, &column, bytes),
            |_| None,
        );
        assert_eq!(result.expect("sending").affected_rows, 1);
        match event {
            Event::Inserted(arrived) => arrived,
            other => panic!("{other:?}"),
        }
    };
    let first = sent(&format!("mysql://{address}/orders/inbox/payload"), b"it's \\here");
    assert_eq!(first.bytes, b"it's \\here");
    assert!(first.origin_uri.ends_with("/orders/inbox/payload"));
    let second = sent("outbox/body", b"");
    assert!(second.bytes.is_empty());
    assert!(second.origin_uri.ends_with("/orders/outbox/body"));
    let binary = sent(&format!("{address}/orders/inbox/payload"), &[0xff, 0xfe]);
    assert_eq!(binary.bytes, [0xff, 0xfe], "not text, so the hex literal");

    let bad_target = near.resolve("mariadb://host/only-one");
    let wrong = MysqlTransport::new(address, "orders", "xmip").with_password("wrong");
    let (refused, error) = meet(&wrong, "orders", &far_end);
    let error = error.err().expect("wrong password");
    assert!(error.message.contains("Access denied for user 'xmip'"));
    let (nobody, error) = meet(
        &MysqlTransport::new(address, "orders", "nobody"),
        "orders",
        &far_end,
    );
    let error = error.err().expect("wrong user");
    assert!(error.message.contains("'nobody'"));
    assert!(error.message.contains("using password: NO"));
    assert!(!bad_target.expect_err("not a column").retryable);
    let refused = refused.err().expect("wrong password");
    assert!(!refused.retryable);
    assert!(refused.message.contains("1045"));
    assert!(nobody.err().expect("wrong user").message.contains("28000"));
}

#[test]
fn a_query_the_far_end_errors_is_the_error_and_a_statement_is_its_count() {
    let far_end = MysqlTransport::new("127.0.0.1:0", "orders", "xmip");
    let near = MysqlTransport::new("127.0.0.1:3306", "orders", "xmip");
    let (client, session) = meet(&near, &near.database, &far_end);
    let client = client.expect("entering");
    let session = session.expect("accepting");
    let (failed, _) = query(&client, &session, &near.query, |sql| {
        sql.starts_with("SELECT").then(|| Answer::Error {
            code: 1146,
            state: "42S02".into(),
            message: "Table 'orders.inbox' doesn't exist".into(),
        })
    });
    let (deleted, event) = query(&client, &session, "DELETE FROM inbox WHERE id = 41", |sql| {
        sql.starts_with("DELETE").then_some(Answer::Complete(3))
    });
    assert_eq!(
        event,
        Event::Executed("DELETE FROM inbox WHERE id = 41".into())
    );
    let error = failed.expect_err("the table is missing");
    assert!(!error.retryable);
    assert!(error.message.contains("1146 (42S02)"));
    assert_eq!(deleted.expect("a count").affected_rows, 3);
    assert_eq!(client.server_version(), session::SERVER_VERSION);
}

#[test]
fn a_server_asking_for_another_plugin_or_speaking_nonsense_is_refused() {
    let greeting = frame(
        &mut 0,
        &encode_handshake(&HandshakeV10 {
            server_version: "8.4.0".into(),
            connection_id: 1,
            nonce: vec![b'n'; 20],
            capabilities: CAPABILITIES,
            plugin: "caching_sha2_password".into(),
        }),
    );
    let mut switch = vec![0xfe];
    cstring(&mut switch, "caching_sha2_password");
    switch.extend_from_slice(b"nonce-nonce-nonce-no\0");
    let near = MysqlTransport::new("127.0.0.1:3306", "orders", "xmip").with_password("secret");
    let (client, _) =
        Client::connect(packet(&greeting), &near.database, &near.login).expect("greeting");
    let error = client
        .logged_in(packet(&frame(&mut 2, &switch)), &near.login)
        .err()
        .expect("caching_sha2_password");
    assert!(!error.retryable);
    assert!(error.message.contains("caching_sha2_password"));
    assert!(error.message.contains(NATIVE_PASSWORD));
    let nonsense = packet(b"\x05\x00\x00\x00HTTP/");
    assert!(
        Client::connect(nonsense, &near.database, &near.login).is_err(),
        "not the protocol"
    );
}

#[test]
fn a_transport_starts_without_a_password_and_with_the_default_query() {
    let transport = MysqlTransport::new("db:3306", "orders", "xmip");
    assert_eq!(transport.server, "db:3306");
    assert_eq!(transport.database, "orders");
    assert_eq!(transport.login.user, "xmip");
    assert_eq!(transport.login.password, "");
    assert_eq!(transport.query, DEFAULT_QUERY);
    assert_eq!(DEFAULT_QUERY, "SELECT id, payload FROM inbox ORDER BY id");
    assert!(transport.timeout.is_none());
    let timed = transport.timing_out_after(Duration::from_secs(2));
    assert_eq!(timed.timeout, Some(Duration::from_secs(2)));
}

#[test]
fn a_target_names_a_place_or_a_suffix_of_one() {
    let transport = MysqlTransport::new("db:3306", "orders", "xmip");
    let place = |a: &str, b: &str, c: &str, d: &str| {
        (a.to_string(), b.to_string(), c.to_string(), d.to_string())
    };
    let resolved = |target: &str| transport.resolve(target).expect("a target");
    assert_eq!(
        resolved("mysql://host:1/d/t/c"),
        place("host:1", "d", "t", "c")
    );
    assert_eq!(
        resolved("mariadb://host/t/c"),
        place("host", "orders", "t", "c")
    );
    assert_eq!(resolved("host:1/d/t/c"), place("host:1", "d", "t", "c"));
    assert_eq!(resolved("host:1/t/c"), place("host:1", "orders", "t", "c"));
    assert_eq!(resolved("d/t/c"), place("db:3306", "d", "t", "c"));
    assert_eq!(resolved("t/c"), place("db:3306", "orders", "t", "c"));
    for target in ["", "t", "a/b/c/d", "mysql://host/d/t/c/x"] {
        let error = transport.resolve(target).expect_err("no place");
        assert!(!error.retryable);
        assert_eq!(
            error.message,
            format!("{target:?} is not database/table/column or table/column")
        );
    }
    let odd = transport.resolve("a\"\n").expect_err("no place");
    assert_eq!(
        odd.message,
        "\"a\\\"\\n\" is not database/table/column or table/column"
    );
}

#[test]
fn a_row_without_columns_is_an_empty_stream_named_by_its_index() {
    let transport = MysqlTransport::new("db", "orders", "xmip");
    let arrived = transport.streams(QueryResult {
        rows: vec![vec![Some("only".into())], Vec::new()],
        ..QueryResult::default()
    });
    assert_eq!(arrived[0].origin_uri, "mysql://db/orders?row=only");
    assert_eq!(arrived[0].bytes, b"only");
    assert_eq!(arrived[1].origin_uri, "mysql://db/orders?row=1");
    assert!(arrived[1].bytes.is_empty());
}
