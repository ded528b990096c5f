use xmip_core_transport_mysql::client::{Client, Progress, QueryResult};
use xmip_core_transport_mysql::error::TransportError;
use xmip_core_transport_mysql::handshake::NONCE_LENGTH;
use xmip_core_transport_mysql::result::{encode_reply, Reply};
use xmip_core_transport_mysql::session::{
    fresh_nonce, greet, write_answer, Answer, Event, Session, SERVER_VERSION,
};
use xmip_core_transport_mysql::wire::{encode_command, read_packet, Command};
use xmip_core_transport_mysql::{Arrived, Login};

fn packet(bytes: &[u8]) -> Option<(u8, Vec<u8>)> {
    let mut stream = bytes;
    read_packet(&mut stream).expect("a packet")
}

fn entered() -> (Client, Session) {
    let login = Login::new("xmip", "secret");
    let nonce = fresh_nonce(7, "127.0.0.1:40000", 1);
    let (client, response) =
        Client::connect(packet(&greet(1, &nonce)), "orders", &login).expect("greeting");
    let verdict = Session::accept(
        packet(&response),
        "127.0.0.1:40000",
        "127.0.0.1",
        &nonce,
        &login,
    );
    let reply = verdict.reply.expect("a reply");
    assert_eq!(client.logged_in(packet(&reply), &login).expect("in"), None);
    (client, verdict.outcome.expect("accepting"))
}

fn run(
    client: &Client,
    session: &Session,
    sql: &str,
    decided: Option<Answer>,
) -> (Result<QueryResult, TransportError>, Event) {
    let (request, mut query) = client.query(sql);
    let (seen, text) = session
        .next_query(packet(&request))
        .expect("a command")
        .expect("a query");
    assert_eq!((seen, text.as_str()), (0, sql));
    let (bytes, event) = session.respond(seen, &text, decided);
    let mut stream = bytes.as_slice();
    loop {
        match query.next(read_packet(&mut stream).expect("read")) {
            Ok(Progress::Waiting(next)) => query = next,
            Ok(Progress::Complete(result)) => {
                assert!(stream.is_empty(), "nothing is left");
                return (Ok(result), event);
            }
            Err(error) => return (Err(error), event),
        }
    }
}

#[test]
fn a_nonce_is_printable_and_fresh() {
    let first = fresh_nonce(1_700_000_000_000_000_000, "127.0.0.1:3306", 1);
    assert_eq!(first.len(), NONCE_LENGTH);
    assert!(first.iter().all(|b| (b'!'..=b'~').contains(b)));
    assert_ne!(
        first,
        fresh_nonce(1_700_000_000_000_000_000, "127.0.0.1:3306", 2)
    );
    assert_ne!(
        first,
        fresh_nonce(1_700_000_000_000_000_001, "127.0.0.1:3306", 1)
    );
    assert_ne!(
        first,
        fresh_nonce(1_700_000_000_000_000_000, "127.0.0.1:3307", 1)
    );
}

#[test]
fn a_session_knows_who_logged_in_and_where() {
    let (client, session) = entered();
    assert_eq!(session.user(), "xmip");
    assert_eq!(session.database(), "orders");
    assert_eq!(client.server_version(), SERVER_VERSION);
    assert_eq!(client.connection_id(), 1);
}

#[test]
fn a_wrong_login_is_told_to_both_ends() {
    let nonce = fresh_nonce(7, "127.0.0.1:40000", 1);
    let expected = Login::new("xmip", "secret");
    for (login, using) in [
        (Login::new("xmip", "wrong"), "YES"),
        (Login::new("nobody", "secret"), "YES"),
        (Login::new("xmip", ""), "NO"),
    ] {
        let (client, response) =
            Client::connect(packet(&greet(1, &nonce)), "orders", &login).expect("greeting");
        let verdict = Session::accept(
            packet(&response),
            "127.0.0.1:40000",
            "127.0.0.1",
            &nonce,
            &expected,
        );
        let told = format!(
            "Access denied for user '{}'@'127.0.0.1' (using password: {using})",
            login.user
        );
        let error = verdict.outcome.err().expect("refused");
        assert!(!error.retryable);
        assert_eq!(error.message, told);
        let reply = verdict.reply.expect("a reply");
        let error = client
            .logged_in(packet(&reply), &login)
            .err()
            .expect("refused");
        assert!(!error.retryable);
        assert_eq!(
            error.message,
            format!("the server answered 1045 (28000): {told}")
        );
    }
}

#[test]
fn a_client_that_does_not_answer_the_greeting_has_no_session() {
    let login = Login::new("xmip", "secret");
    let closed = Session::accept(None, "p:1", "p", b"nonce", &login);
    assert!(closed.reply.is_none());
    assert_eq!(
        closed.outcome.err().expect("closed").message,
        "the client closed before answering the greeting"
    );
    let old = Session::accept(Some((1, vec![0, 0, 0, 0])), "p:1", "p", b"nonce", &login);
    assert!(old.reply.is_none());
    assert!(old.outcome.is_err(), "not 4.1");
}

#[test]
fn a_select_gets_the_table() {
    let (client, session) = entered();
    let session = session.with_table(
        &["id", "payload"],
        &[&[Some("41"), None], &[Some(""), Some("x")]],
    );
    let (result, event) = run(&client, &session, " select * FROM inbox", None);
    let result = result.expect("rows");
    assert_eq!(result.columns, ["id", "payload"]);
    assert_eq!(
        result.rows,
        [
            vec![Some("41".to_string()), None],
            vec![Some(String::new()), Some("x".to_string())]
        ]
    );
    assert_eq!(event, Event::Selected(" select * FROM inbox".into()));
}

#[test]
fn an_insert_is_recorded_and_anything_else_completed() {
    let (client, session) = entered();
    let (result, event) = run(
        &client,
        &session,
        "INSERT INTO inbox (payload) VALUES ('x')",
        None,
    );
    assert_eq!(result.expect("one row").affected_rows, 1);
    assert_eq!(
        event,
        Event::Inserted(Arrived::new(
            "mysql://127.0.0.1:40000/orders/inbox/payload".into(),
            b"x".to_vec()
        ))
    );
    let (result, event) = run(&client, &session, "INSERT INTO inbox VALUES (1)", None);
    let error = result.expect_err("not served");
    assert!(!error.retryable);
    assert_eq!(
        error.message,
        "the server answered 1064 (42000): only INSERT INTO t (c) VALUES (...) is served here"
    );
    assert_eq!(
        event,
        Event::Executed("INSERT INTO inbox VALUES (1)".into())
    );
    let (result, event) = run(&client, &session, "SELECTED", None);
    assert_eq!(result.expect("completed"), QueryResult::default());
    assert_eq!(event, Event::Executed("SELECTED".into()));
    let (result, _) = run(&client, &session, "", None);
    assert_eq!(result.expect("completed"), QueryResult::default());
}

#[test]
fn what_was_decided_is_the_answer() {
    let (client, session) = entered();
    let (result, event) = run(&client, &session, "SELECT 1", Some(Answer::Complete(9)));
    assert_eq!(result.expect("count").affected_rows, 9);
    assert_eq!(event, Event::Executed("SELECT 1".into()));
}

#[test]
fn a_client_that_quits_or_closes_has_no_next_query() {
    let (client, session) = entered();
    assert!(session.next_query(packet(&client.close())).expect("quit").is_none());
    assert!(session.next_query(None).expect("closed").is_none());
    let error = session
        .next_query(Some((0, vec![0x0e])))
        .err()
        .expect("COM_PING is not served");
    assert_eq!(error.message, "command 0x0e is not one this crate serves");
    assert!(session.next_query(Some((0, Vec::new()))).is_err());
}

#[test]
fn the_packets_of_an_answer_are_numbered_on() {
    let bytes = write_answer(
        255,
        &Answer::Rows {
            columns: vec!["a".into()],
            rows: vec![vec![None]],
        },
    );
    let mut stream = bytes.as_slice();
    let mut numbers = Vec::new();
    while let Some((sequence, _)) = read_packet(&mut stream).expect("read") {
        numbers.push(sequence);
    }
    assert_eq!(numbers, [255, 0, 1, 2, 3]);
    let (client, session) = entered();
    let (request, _) = client.query("DELETE");
    let (seen, sql) = session
        .next_query(packet(&request))
        .expect("command")
        .expect("query");
    let (bytes, _) = session.respond(seen, &sql, None);
    assert_eq!(packet(&bytes).expect("one").0, 1);
    assert_eq!(
        packet(&bytes).expect("one").1,
        encode_reply(&Reply::Okay {
            affected_rows: 0,
            last_insert_id: 0,
            status: 2,
            warnings: 0
        })
    );
    assert_eq!(encode_command(&Command::Query(sql)), packet(&request).expect("one").1);
}
