//! The server's side of one connection: what a test puts at the far end,
//! and what the playground drives.
//!
//! Not a database. One session does the login for one client - a greeting
//! with a fresh nonce, the native password checked against the one login
//! it expects - and answers each query from a closure or from one fixed
//! table: any SELECT gets the table's rows, an INSERT of one column is
//! recorded as a Stream, anything else is completed with OK. Planning,
//! storage and SQL are a database's.
//!
//! What is sent is decided from the packets that arrived: whoever holds the
//! connection reads a packet, hands it in, and sends what comes out.

use crate::error::{agrees, lasting, Fault};
use crate::error::{protocol_error, TransportError};
use crate::handshake::{
    decode_response, encode_handshake, verify, HandshakeV10, Login, CAPABILITIES, NATIVE_PASSWORD,
    NONCE_LENGTH,
};
use crate::handshake::{greeting_bytes, response_of, verifies, Greeting, Response};
use crate::insert::insert_of;
use crate::insert::parse_insert;
use crate::result::{definition_bytes, reply_bytes, row_bytes, whole_state, ReplyView};
use crate::result::{encode_column, encode_column_count, encode_reply, encode_row, Reply};
use crate::scan::{find_space, starts_with, trim_start};
use crate::scan::{first_word, is_word};
use crate::sha1::sha1;
use crate::sha1::digest_of;
use crate::stream::{Arrived, ArrivedView};
use crate::text::decimal_text;
use crate::text::{chars_of, push_decimal};
use crate::wire::{append, decode_command, frame, frame_after, Command};
use crate::wire::{command_of, lenenc, next_sequence, packets, sequence_after, CommandView};
use vstd::prelude::*;
use vstd::slice::{slice_subrange, slice_to_vec};
use vstd::string::StringExecFns;
use vstd::utf8::encode_utf8;

verus! {

/// What this far end says it is.
pub const SERVER_VERSION: &'static str = "8.4.0-xmip";

/// `SERVER_STATUS_AUTOCOMMIT`, the one status a session reports.
pub const AUTOCOMMIT: u16 = 2;

/// What the client did, as [`Session::respond`] reports it.
#[derive(Clone, Debug, PartialEq, Eq)]
pub enum Event {
    /// The client ran a SELECT; here it is.
    Selected(String),
    /// The client inserted one value; here is the Stream.
    Inserted(Arrived),
    /// The client ran something else; here it is.
    Executed(String),
}

/// What the client did, as texts.
pub enum EventView {
    Selected(Seq<char>),
    Inserted(ArrivedView),
    Executed(Seq<char>),
}

impl View for Event {
    type V = EventView;

    open spec fn view(&self) -> EventView {
        match self {
            Event::Selected(sql) => EventView::Selected(sql@),
            Event::Inserted(arrived) => EventView::Inserted(arrived@),
            Event::Executed(sql) => EventView::Executed(sql@),
        }
    }
}

/// How a query is answered.
#[derive(Clone, Debug, PartialEq, Eq)]
pub enum Answer {
    Rows { columns: Vec<String>, rows: Vec<Vec<Option<String>>> },
    /// OK, with this many rows affected.
    Complete(u64),
    Error { code: u16, state: String, message: String },
}

/// How a query is answered, as texts.
pub enum AnswerView {
    Rows { columns: Seq<Seq<char>>, rows: Seq<Seq<Option<Seq<char>>>> },
    Complete(u64),
    Error { code: u16, state: Seq<char>, message: Seq<char> },
}

impl View for Answer {
    type V = AnswerView;

    open spec fn view(&self) -> AnswerView {
        match self {
            Answer::Rows { columns, rows } => AnswerView::Rows {
                columns: columns.deep_view(),
                rows: rows.deep_view(),
            },
            Answer::Complete(affected) => AnswerView::Complete(*affected),
            Answer::Error { code, state, message } => AnswerView::Error {
                code: *code,
                state: state@,
                message: message@,
            },
        }
    }
}

// The login.

/// A server's side of a login that succeeded, and what it answers from.
pub struct Session {
    pub peer: String,
    pub user: String,
    pub database: String,
    pub columns: Vec<String>,
    pub rows: Vec<Vec<Option<String>>>,
}

/// A session as texts.
pub struct SessionView {
    pub peer: Seq<char>,
    pub user: Seq<char>,
    pub database: Seq<char>,
    pub columns: Seq<Seq<char>>,
    pub rows: Seq<Seq<Option<Seq<char>>>>,
}

impl View for Session {
    type V = SessionView;

    open spec fn view(&self) -> SessionView {
        SessionView {
            peer: self.peer@,
            user: self.user@,
            database: self.database@,
            columns: self.columns.deep_view(),
            rows: self.rows.deep_view(),
        }
    }
}

/// The greeting that opens a connection.
pub open spec fn session_greeting(connection_id: u32, nonce: Seq<u8>) -> Greeting {
    Greeting {
        server_version: SERVER_VERSION@,
        connection_id,
        nonce,
        capabilities: CAPABILITIES,
        plugin: NATIVE_PASSWORD@,
    }
}

/// The OK that completes a statement or a login.
pub open spec fn okay(affected_rows: u64) -> ReplyView {
    ReplyView::Okay { affected_rows, last_insert_id: 0, status: AUTOCOMMIT, warnings: 0 }
}

/// The EOF that ends the columns or the rows.
pub open spec fn end_of_set() -> ReplyView {
    ReplyView::Eof { warnings: 0, status: AUTOCOMMIT }
}

/// A response that the expected user gave, with the password that the nonce
/// asks for, by the native plugin.
pub open spec fn admitted(
    response: Response,
    user: Seq<char>,
    password: Seq<char>,
    nonce: Seq<u8>,
) -> bool {
    &&& response.user == user
    &&& response.plugin == NATIVE_PASSWORD@
    &&& verifies(password, nonce, response.auth_response)
}

/// What a client that is not admitted is told.
pub open spec fn denial_text(response: Response, host: Seq<char>) -> Seq<char> {
    "Access denied for user '"@ + response.user + "'@'"@ + host + "' (using password: "@ + (
    if response.auth_response.len() == 0 {
        "NO"@
    } else {
        "YES"@
    }) + ")"@
}

/// The ERR that a client that is not admitted is told with.
pub open spec fn denial(response: Response, host: Seq<char>) -> ReplyView {
    ReplyView::Error { code: 1045, state: "28000"@, message: denial_text(response, host) }
}

/// What a client's answer to the greeting comes to: the bytes that reply to
/// it, where there are any, and the session or why there is none.
pub struct VerdictView {
    pub reply: Option<Seq<u8>>,
    pub outcome: Result<SessionView, Fault>,
}

/// What a client's answer to the greeting comes to.
pub open spec fn verdict_of(
    packet: Option<(u8, Seq<u8>)>,
    peer: Seq<char>,
    host: Seq<char>,
    nonce: Seq<u8>,
    user: Seq<char>,
    password: Seq<char>,
) -> VerdictView {
    match packet {
        None => VerdictView {
            reply: None,
            outcome: Err(lasting("the client closed before answering the greeting"@)),
        },
        Some((seen, payload)) => match response_of(payload) {
            Err(fault) => VerdictView { reply: None, outcome: Err(fault) },
            Ok(response) => if admitted(response, user, password, nonce) {
                VerdictView {
                    reply: Some(packets(next_sequence(seen), reply_bytes(okay(0)))),
                    outcome: Ok(
                        SessionView {
                            peer,
                            user: response.user,
                            database: response.database,
                            columns: seq![],
                            rows: seq![],
                        },
                    ),
                }
            } else {
                VerdictView {
                    reply: Some(packets(next_sequence(seen), reply_bytes(denial(response, host)))),
                    outcome: Err(lasting(denial_text(response, host))),
                }
            },
        },
    }
}

/// What a client's answer to the greeting comes to.
pub struct Verdict {
    /// The bytes to send.
    pub reply: Option<Vec<u8>>,
    /// The session, or why there is none.
    pub outcome: Result<Session, TransportError>,
}

/// The OK that completes a statement or a login.
fn ok(affected_rows: u64) -> (reply: Reply)
    ensures
        reply@ == okay(affected_rows),
{
    Reply::Okay { affected_rows, last_insert_id: 0, status: AUTOCOMMIT, warnings: 0 }
}

/// The EOF that ends the columns or the rows.
fn eof() -> (reply: Reply)
    ensures
        reply@ == end_of_set(),
{
    Reply::Eof { warnings: 0, status: AUTOCOMMIT }
}

/// The bytes that greet a client, with `nonce` for it to scramble its
/// password with.
#[must_use]
pub fn greet(connection_id: u32, nonce: &[u8]) -> (bytes: Vec<u8>)
    ensures
        bytes@ == greet_bytes(connection_id, nonce@),
{
    let greeting = HandshakeV10 {
        server_version: SERVER_VERSION.to_owned(),
        connection_id,
        nonce: slice_to_vec(nonce),
        capabilities: CAPABILITIES,
        plugin: NATIVE_PASSWORD.to_owned(),
    };
    let mut sequence: u8 = 0;
    frame(&mut sequence, encode_handshake(&greeting).as_slice())
}

/// The bytes that greet a client.
pub open spec fn greet_bytes(connection_id: u32, nonce: Seq<u8>) -> Seq<u8> {
    packets(0, greeting_bytes(session_greeting(connection_id, nonce)))
}

/// What a client that is not admitted is told.
fn denied(user: &str, host: &str, using_password: bool) -> (text: String)
    ensures
        text@ == "Access denied for user '"@ + user@ + "'@'"@ + host@ + "' (using password: "@ + (
        if using_password {
            "YES"@
        } else {
            "NO"@
        }) + ")"@,
{
    let mut text = "Access denied for user '".to_owned();
    text.append(user);
    text.append("'@'");
    text.append(host);
    text.append("' (using password: ");
    if using_password {
        text.append("YES");
    } else {
        text.append("NO");
    }
    text.append(")");
    text
}

/// The states that a session sends are whole.
pub(crate) proof fn own_states()
    ensures
        whole_state("28000"@),
        encode_utf8("28000"@).len() == 5,
        whole_state("42000"@),
        encode_utf8("42000"@).len() == 5,
{
    reveal_strlit("28000");
    reveal_strlit("42000");
    vstd::utf8::is_ascii_chars_encode_utf8("28000"@);
    vstd::utf8::is_ascii_chars_encode_utf8("42000"@);
}

impl Session {
    /// Take the answer of a client at `peer`, whose address is `host`, to the
    /// greeting with `nonce`, demanding `login`'s user and password.
    ///
    /// There is no session where the client closed, did not answer the
    /// greeting with a 4.1 response, or gave another user or password - which
    /// is told to the client as error 1045.
    pub fn accept(
        packet: Option<(u8, Vec<u8>)>,
        peer: &str,
        host: &str,
        nonce: &[u8],
        login: &Login,
    ) -> (verdict: Verdict)
        ensures
            ({
                let expected = verdict_of(
                    crate::client::packet_of(packet),
                    peer@,
                    host@,
                    nonce@,
                    login.user@,
                    login.password@,
                );
                &&& match (verdict.reply, expected.reply) {
                    (Some(bytes), Some(expected)) => bytes@ == expected,
                    (None, None) => true,
                    _ => false,
                }
                &&& agrees(verdict.outcome, expected.outcome)
            }),
    {
        let (seen, payload) = match packet {
            Some(read) => read,
            None => {
                let error = protocol_error("the client closed before answering the greeting");
                return Verdict { reply: None, outcome: Err(error) };
            },
        };
        let response = match decode_response(payload.as_slice()) {
            Ok(response) => response,
            Err(error) => return Verdict { reply: None, outcome: Err(error) },
        };
        let accepted = response.user == login.user && response.plugin == NATIVE_PASSWORD.to_owned()
            && verify(login.password.as_str(), nonce, response.auth_response.as_slice());
        if !accepted {
            let message = denied(
                response.user.as_str(),
                host,
                response.auth_response.len() > 0,
            );
            let reply = Reply::Error {
                code: 1045,
                state: "28000".to_owned(),
                message: message.clone(),
            };
            proof {
                own_states();
            }
            let bytes = frame_after(seen, encode_reply(&reply).as_slice());
            return Verdict {
                reply: Some(bytes),
                outcome: Err(TransportError::permanent(message)),
            };
        }
        let bytes = frame_after(seen, encode_reply(&ok(0)).as_slice());
        let session = Session {
            peer: peer.to_owned(),
            user: response.user,
            database: response.database,
            columns: Vec::new(),
            rows: Vec::new(),
        };
        assert(session@.columns =~= seq![]);
        assert(session@.rows =~= seq![]);
        Verdict { reply: Some(bytes), outcome: Ok(session) }
    }

    /// The user the client logged in as.
    #[must_use]
    pub fn user(&self) -> (user: &str)
        ensures
            user@ == self@.user,
    {
        self.user.as_str()
    }

    /// The database the client asked for.
    #[must_use]
    pub fn database(&self) -> (database: &str)
        ensures
            database@ == self@.database,
    {
        self.database.as_str()
    }
}

// What a query is answered with.

/// Where a value that a client inserted came from.
pub open spec fn origin_of(session: SessionView, table: Seq<char>, column: Seq<char>) -> Seq<char> {
    "mysql://"@ + session.peer + "/"@ + session.database + "/"@ + table + "/"@ + column
}

/// The error of an insert that is not taken apart.
pub open spec fn unserved() -> AnswerView {
    AnswerView::Error {
        code: 1064,
        state: "42000"@,
        message: "only INSERT INTO t (c) VALUES (...) is served here"@,
    }
}

/// How a session answers `sql` on its own, and what the client did: the table
/// for a SELECT, the value of an INSERT of one column, OK for anything else.
pub open spec fn own_answer(session: SessionView, sql: Seq<char>) -> (AnswerView, EventView) {
    if is_word(first_word(sql), "SELECT"@) {
        (
            AnswerView::Rows { columns: session.columns, rows: session.rows },
            EventView::Selected(sql),
        )
    } else if is_word(first_word(sql), "INSERT"@) {
        match insert_of(sql) {
            Some((table, column, value)) => (
                AnswerView::Complete(1),
                EventView::Inserted(
                    ArrivedView { origin_uri: origin_of(session, table, column), bytes: value },
                ),
            ),
            None => (unserved(), EventView::Executed(sql)),
        }
    } else {
        (AnswerView::Complete(0), EventView::Executed(sql))
    }
}

/// How a session answers `sql`, and what the client did: with what was
/// decided for it, and on its own where nothing was.
pub open spec fn answer_of(
    session: SessionView,
    sql: Seq<char>,
    decided: Option<AnswerView>,
) -> (AnswerView, EventView) {
    match decided {
        Some(answer) => (answer, EventView::Executed(sql)),
        None => own_answer(session, sql),
    }
}

/// The payloads of `texts`' column definitions.
pub open spec fn definitions(columns: Seq<Seq<char>>) -> Seq<Seq<u8>> {
    Seq::new(columns.len(), |i: int| definition_bytes(columns[i]))
}

/// The payloads of rows.
pub open spec fn row_payloads(rows: Seq<Seq<Option<Seq<char>>>>) -> Seq<Seq<u8>> {
    Seq::new(rows.len(), |i: int| row_bytes(rows[i]))
}

/// The payloads of an answer, one after another.
pub open spec fn answer_payloads(answer: AnswerView) -> Seq<Seq<u8>> {
    match answer {
        AnswerView::Rows { columns, rows } => {
            seq![lenenc(columns.len() as u64)] + definitions(columns) + seq![
                reply_bytes(end_of_set()),
            ] + row_payloads(rows) + seq![reply_bytes(end_of_set())]
        },
        AnswerView::Complete(affected) => seq![reply_bytes(okay(affected))],
        AnswerView::Error { code, state, message } => seq![
            reply_bytes(ReplyView::Error { code, state, message }),
        ],
    }
}

/// Payloads framed one after another, `sequence` counting their packets.
pub open spec fn framed(sequence: u8, payloads: Seq<Seq<u8>>) -> Seq<u8>
    decreases payloads.len(),
{
    if payloads.len() == 0 {
        seq![]
    } else {
        packets(sequence, payloads[0]) + framed(
            sequence_after(sequence, payloads[0].len()),
            payloads.drop_first(),
        )
    }
}

/// The sequence byte after payloads that were framed one after another.
pub open spec fn sequence_past(sequence: u8, payloads: Seq<Seq<u8>>) -> u8
    decreases payloads.len(),
{
    if payloads.len() == 0 {
        sequence
    } else {
        sequence_past(sequence_after(sequence, payloads[0].len()), payloads.drop_first())
    }
}

/// An answer that can be sent.
pub open spec fn answerable(answer: AnswerView) -> bool {
    match answer {
        AnswerView::Error { state, .. } => whole_state(state),
        _ => true,
    }
}

/// The bytes that answer the query that came with the sequence byte `seen`.
pub open spec fn answer_bytes(seen: u8, answer: AnswerView) -> Seq<u8> {
    framed(next_sequence(seen), answer_payloads(answer))
}

/// The command of a packet, as [`Session::next_query`] takes it: the query
/// and the sequence byte that it came with, or nothing where the client
/// closed or quit.
pub open spec fn query_in(packet: Option<(u8, Seq<u8>)>) -> Result<Option<(u8, Seq<char>)>, Fault> {
    match packet {
        None => Ok(None),
        Some((seen, payload)) => match command_of(payload) {
            Err(fault) => Err(fault),
            Ok(CommandView::Quit) => Ok(None),
            Ok(CommandView::Query(sql)) => Ok(Some((seen, sql))),
        },
    }
}

/// One more payload framed after others.
proof fn framed_last(sequence: u8, payloads: Seq<Seq<u8>>, payload: Seq<u8>)
    ensures
        framed(sequence, payloads.push(payload)) == framed(sequence, payloads) + packets(
            sequence_past(sequence, payloads),
            payload,
        ),
        sequence_past(sequence, payloads.push(payload)) == sequence_after(
            sequence_past(sequence, payloads),
            payload.len(),
        ),
    decreases payloads.len(),
{
    let all = payloads.push(payload);
    if payloads.len() == 0 {
        assert(all.drop_first() =~= seq![]);
        reveal_with_fuel(framed, 2);
        reveal_with_fuel(sequence_past, 2);
        assert(framed(sequence, all) =~= framed(sequence, payloads) + packets(sequence, payload));
    } else {
        let rest = payloads.drop_first();
        let next = sequence_after(sequence, payloads[0].len());
        assert(all.drop_first() =~= rest.push(payload));
        framed_last(next, rest, payload);
        assert(framed(sequence, all) =~= framed(sequence, payloads) + packets(
            sequence_past(sequence, payloads),
            payload,
        ));
    }
}

/// Adds `payload` to the end of `out`, framed after `done`.
fn add_framed(
    out: &mut Vec<u8>,
    sequence: &mut u8,
    payload: &[u8],
    first: u8,
    done: Ghost<Seq<Seq<u8>>>,
)
    requires
        old(out)@ == framed(first, done@),
        *old(sequence) == sequence_past(first, done@),
    ensures
        final(out)@ == framed(first, done@.push(payload@)),
        *final(sequence) == sequence_past(first, done@.push(payload@)),
{
    proof {
        framed_last(first, done@, payload@);
    }
    let bytes = frame(sequence, payload);
    append(out, bytes.as_slice());
}

/// The bytes of a result set, `first` numbering its first packet.
fn frame_rows(first: u8, columns: &[String], rows: &[Vec<Option<String>>]) -> (out: Vec<u8>)
    ensures
        out@ == framed(
            first,
            answer_payloads(
                AnswerView::Rows { columns: columns.deep_view(), rows: rows.deep_view() },
            ),
        ),
{
    let ghost names = columns.deep_view();
    let ghost values = rows.deep_view();
    let ghost mut done: Seq<Seq<u8>> = seq![];
    let mut sequence: u8 = first;
    let mut out: Vec<u8> = Vec::new();
    assert(out@ =~= framed(first, done));
    let count = encode_column_count(columns.len());
    add_framed(&mut out, &mut sequence, count.as_slice(), first, Ghost(done));
    proof {
        done = done.push(count@);
        assert(done =~= seq![lenenc(names.len() as u64)] + definitions(names).take(0));
    }
    let mut at: usize = 0;
    while at < columns.len()
        invariant
            at <= columns@.len(),
            names == columns.deep_view(),
            done == seq![lenenc(names.len() as u64)] + definitions(names).take(at as int),
            out@ == framed(first, done),
            sequence == sequence_past(first, done),
        decreases columns@.len() - at,
    {
        let definition = encode_column(columns[at].as_str());
        add_framed(&mut out, &mut sequence, definition.as_slice(), first, Ghost(done));
        proof {
            done = done.push(definition@);
            assert(names[at as int] == columns@[at as int]@);
            assert(done =~= seq![lenenc(names.len() as u64)] + definitions(names).take(at + 1));
        }
        at += 1;
    }
    let end = encode_reply(&eof());
    add_framed(&mut out, &mut sequence, end.as_slice(), first, Ghost(done));
    let ghost opening = seq![lenenc(names.len() as u64)] + definitions(names) + seq![
        reply_bytes(end_of_set()),
    ];
    proof {
        done = done.push(end@);
        assert(definitions(names).take(at as int) =~= definitions(names));
        assert(done =~= opening + row_payloads(values).take(0));
    }
    let mut at: usize = 0;
    while at < rows.len()
        invariant
            at <= rows@.len(),
            values == rows.deep_view(),
            done == opening + row_payloads(values).take(at as int),
            out@ == framed(first, done),
            sequence == sequence_past(first, done),
        decreases rows@.len() - at,
    {
        let row = encode_row(rows[at].as_slice());
        add_framed(&mut out, &mut sequence, row.as_slice(), first, Ghost(done));
        proof {
            done = done.push(row@);
            assert(values[at as int] =~= rows@[at as int].deep_view());
            assert(done =~= opening + row_payloads(values).take(at + 1));
        }
        at += 1;
    }
    add_framed(&mut out, &mut sequence, end.as_slice(), first, Ghost(done));
    proof {
        done = done.push(end@);
        assert(row_payloads(values).take(at as int) =~= row_payloads(values));
        assert(done =~= answer_payloads(AnswerView::Rows { columns: names, rows: values }));
    }
    out
}

/// The bytes of `answer`, `first` numbering its first packet.
#[must_use]
pub fn write_answer(first: u8, answer: &Answer) -> (bytes: Vec<u8>)
    requires
        answerable(answer@),
    ensures
        bytes@ == framed(first, answer_payloads(answer@)),
{
    let mut sequence: u8 = first;
    let payload = match answer {
        Answer::Rows { columns, rows } => {
            return frame_rows(first, columns.as_slice(), rows.as_slice());
        },
        Answer::Complete(affected) => encode_reply(&ok(*affected)),
        Answer::Error { code, state, message } => {
            let reply = Reply::Error {
                code: *code,
                state: state.clone(),
                message: message.clone(),
            };
            encode_reply(&reply)
        },
    };
    proof {
        let payloads = answer_payloads(answer@);
        assert(payloads =~= seq![payload@]);
        assert(payloads.drop_first() =~= seq![]);
        reveal_with_fuel(framed, 2);
        assert(framed(first, payloads) =~= packets(first, payload@));
    }
    frame(&mut sequence, payload.as_slice())
}


/// The texts of `names`.
fn owned_names(names: &[&str]) -> (owned: Vec<String>)
    ensures
        owned.deep_view() == names.deep_view(),
{
    let mut owned: Vec<String> = Vec::new();
    let mut at: usize = 0;
    while at < names.len()
        invariant
            at <= names@.len(),
            owned.deep_view() == names.deep_view().take(at as int),
        decreases names@.len() - at,
    {
        let ghost before = owned.deep_view();
        owned.push(names[at].to_owned());
        assert(owned.deep_view() =~= before.push(names@[at as int]@));
        assert(owned.deep_view() =~= names.deep_view().take(at + 1));
        at += 1;
    }
    assert(names.deep_view().take(at as int) =~= names.deep_view());
    owned
}

/// The values of `row`.
fn owned_row(row: &[Option<&str>]) -> (owned: Vec<Option<String>>)
    ensures
        owned.deep_view() == row.deep_view(),
{
    let mut owned: Vec<Option<String>> = Vec::new();
    let mut at: usize = 0;
    while at < row.len()
        invariant
            at <= row@.len(),
            owned.deep_view() == row.deep_view().take(at as int),
        decreases row@.len() - at,
    {
        let ghost before = owned.deep_view();
        let value: Option<String> = match row[at] {
            Some(text) => Some(text.to_owned()),
            None => None,
        };
        let ghost copied = value.deep_view();
        owned.push(value);
        assert(owned.deep_view() =~= before.push(copied));
        assert(owned.deep_view() =~= row.deep_view().take(at + 1));
        at += 1;
    }
    assert(row.deep_view().take(at as int) =~= row.deep_view());
    owned
}

/// The values of `rows`.
fn owned_rows(rows: &[&[Option<&str>]]) -> (owned: Vec<Vec<Option<String>>>)
    ensures
        owned.deep_view() == rows.deep_view(),
{
    let mut owned: Vec<Vec<Option<String>>> = Vec::new();
    let mut at: usize = 0;
    while at < rows.len()
        invariant
            at <= rows@.len(),
            owned.deep_view() == rows.deep_view().take(at as int),
        decreases rows@.len() - at,
    {
        let ghost before = owned.deep_view();
        let row = owned_row(rows[at]);
        let ghost copied = row.deep_view();
        owned.push(row);
        assert(owned.deep_view() =~= before.push(copied));
        assert(owned.deep_view() =~= rows.deep_view().take(at + 1));
        at += 1;
    }
    assert(rows.deep_view().take(at as int) =~= rows.deep_view());
    owned
}

/// A copy of `texts`.
fn copied_texts(texts: &[String]) -> (copied: Vec<String>)
    ensures
        copied.deep_view() == texts.deep_view(),
{
    let mut copied: Vec<String> = Vec::new();
    let mut at: usize = 0;
    while at < texts.len()
        invariant
            at <= texts@.len(),
            copied.deep_view() == texts.deep_view().take(at as int),
        decreases texts@.len() - at,
    {
        let ghost before = copied.deep_view();
        copied.push(texts[at].clone());
        assert(copied.deep_view() =~= before.push(texts@[at as int]@));
        assert(copied.deep_view() =~= texts.deep_view().take(at + 1));
        at += 1;
    }
    assert(texts.deep_view().take(at as int) =~= texts.deep_view());
    copied
}

/// A copy of `row`.
fn copied_row(row: &[Option<String>]) -> (copied: Vec<Option<String>>)
    ensures
        copied.deep_view() == row.deep_view(),
{
    let mut copied: Vec<Option<String>> = Vec::new();
    let mut at: usize = 0;
    while at < row.len()
        invariant
            at <= row@.len(),
            copied.deep_view() == row.deep_view().take(at as int),
        decreases row@.len() - at,
    {
        let ghost before = copied.deep_view();
        let value: Option<String> = match &row[at] {
            Some(text) => Some(text.clone()),
            None => None,
        };
        let ghost taken = value.deep_view();
        copied.push(value);
        assert(copied.deep_view() =~= before.push(taken));
        assert(copied.deep_view() =~= row.deep_view().take(at + 1));
        at += 1;
    }
    assert(row.deep_view().take(at as int) =~= row.deep_view());
    copied
}

/// A copy of `rows`.
fn copied_rows(rows: &[Vec<Option<String>>]) -> (copied: Vec<Vec<Option<String>>>)
    ensures
        copied.deep_view() == rows.deep_view(),
{
    let mut copied: Vec<Vec<Option<String>>> = Vec::new();
    let mut at: usize = 0;
    while at < rows.len()
        invariant
            at <= rows@.len(),
            copied.deep_view() == rows.deep_view().take(at as int),
        decreases rows@.len() - at,
    {
        let ghost before = copied.deep_view();
        let row = copied_row(rows[at].as_slice());
        let ghost taken = row.deep_view();
        copied.push(row);
        assert(rows@[at as int].deep_view() =~= taken);
        assert(copied.deep_view() =~= before.push(taken));
        assert(copied.deep_view() =~= rows.deep_view().take(at + 1));
        at += 1;
    }
    assert(rows.deep_view().take(at as int) =~= rows.deep_view());
    copied
}

/// True where the first word of `sql` is `word`, an upper-case word, in
/// either case.
fn verb_is(sql: &str, word: &str) -> (same: bool)
    ensures
        same == is_word(first_word(sql@), word@),
{
    let chars = chars_of(sql);
    let text = trim_start(chars.as_slice());
    let count: usize = find_space(text);
    let verb = slice_subrange(text, 0, count);
    assert(verb@ =~= first_word(sql@));
    let expected = chars_of(word);
    verb.len() == expected.len() && starts_with(verb, expected.as_slice())
}

impl Session {
    /// Answer any SELECT with these `columns` and `rows`.
    #[must_use]
    pub fn with_table(self, columns: &[&str], rows: &[&[Option<&str>]]) -> (session: Self)
        ensures
            session@ == (SessionView {
                columns: columns.deep_view(),
                rows: rows.deep_view(),
                ..self@
            }),
    {
        Session { columns: owned_names(columns), rows: owned_rows(rows), ..self }
    }

    /// The query that a packet carries, with the packet's sequence byte;
    /// `None` where the client closed or quit.
    ///
    /// # Errors
    /// The client sent a command this crate does not serve.
    pub fn next_query(&self, packet: Option<(u8, Vec<u8>)>) -> (result: Result<
        Option<(u8, String)>,
        TransportError,
    >)
        ensures
            match (result, query_in(crate::client::packet_of(packet))) {
                (Ok(Some((seen, sql))), Ok(Some(expected))) => seen == expected.0 && sql@
                    == expected.1,
                (Ok(None), Ok(None)) => true,
                (Err(error), Err(fault)) => error@ == fault,
                _ => false,
            },
    {
        match packet {
            None => Ok(None),
            Some((seen, payload)) => match decode_command(payload.as_slice())? {
                Command::Quit => Ok(None),
                Command::Query(sql) => Ok(Some((seen, sql))),
            },
        }
    }

    /// How `sql` is answered, and what the client did with it: `decided`
    /// where something else answered first, and what it declined falls to
    /// the table.
    pub fn answer(&self, sql: &str, decided: Option<Answer>) -> (answered: (Answer, Event))
        ensures
            (answered.0@, answered.1@) == answer_of(
                self@,
                sql@,
                match decided {
                    Some(answer) => Some(answer@),
                    None => None,
                },
            ),
    {
        if let Some(answer) = decided {
            return (answer, Event::Executed(sql.to_owned()));
        }
        if verb_is(sql, "SELECT") {
            let answer = Answer::Rows {
                columns: copied_texts(self.columns.as_slice()),
                rows: copied_rows(self.rows.as_slice()),
            };
            return (answer, Event::Selected(sql.to_owned()));
        }
        if !verb_is(sql, "INSERT") {
            return (Answer::Complete(0), Event::Executed(sql.to_owned()));
        }
        match parse_insert(sql) {
            Some((table, column, value)) => {
                let mut origin = "mysql://".to_owned();
                origin.append(self.peer.as_str());
                origin.append("/");
                origin.append(self.database.as_str());
                origin.append("/");
                origin.append(table.as_str());
                origin.append("/");
                origin.append(column.as_str());
                (Answer::Complete(1), Event::Inserted(Arrived::new(origin, value)))
            },
            None => {
                let answer = Answer::Error {
                    code: 1064,
                    state: "42000".to_owned(),
                    message: "only INSERT INTO t (c) VALUES (...) is served here".to_owned(),
                };
                (answer, Event::Executed(sql.to_owned()))
            },
        }
    }

    /// Answer the query that came with the sequence byte `seen`: the bytes to
    /// send, and what the client did.
    pub fn respond(&self, seen: u8, sql: &str, decided: Option<Answer>) -> (responded: (
        Vec<u8>,
        Event,
    ))
        requires
            decided matches Some(answer) ==> answerable(answer@),
        ensures
            ({
                let (answer, event) = answer_of(
                    self@,
                    sql@,
                    match decided {
                        Some(answer) => Some(answer@),
                        None => None,
                    },
                );
                &&& responded.0@ == answer_bytes(seen, answer)
                &&& responded.1@ == event
            }),
    {
        proof {
            own_states();
        }
        let (answer, event) = self.answer(sql, decided);
        let next: u8 = if seen == 255 { 0 } else { seen + 1 };
        (write_answer(next, &answer), event)
    }
}

// The nonce.

/// What a nonce is made from: the clock, the peer and a counter.
pub open spec fn nonce_seed(nanos: u128, peer: Seq<char>, connections: u32) -> Seq<char> {
    decimal_text(nanos as nat) + ":"@ + peer + ":"@ + decimal_text(connections as nat)
}

/// A digest as a nonce: each byte folded into the printable ones.
pub open spec fn printable(digest: Seq<u8>) -> Seq<u8> {
    Seq::new(NONCE_LENGTH as nat, |i: int| (33 + digest[i] % 94) as u8)
}

/// The nonce of a session.
pub open spec fn nonce_of(nanos: u128, peer: Seq<char>, connections: u32) -> Seq<u8> {
    printable(digest_of(encode_utf8(nonce_seed(nanos, peer, connections))))
}

/// Twenty printable bytes: the SHA-1 of the clock in `nanos`, the peer and
/// the counter `connections`, each byte folded into `!`..`~` the way a
/// server does so no NUL lands in a field a NUL ends.
#[must_use]
pub fn fresh_nonce(nanos: u128, peer: &str, connections: u32) -> (nonce: Vec<u8>)
    ensures
        nonce@ == nonce_of(nanos, peer@, connections),
        nonce@.len() == NONCE_LENGTH,
        forall|i: int| 0 <= i < nonce@.len() ==> 33 <= #[trigger] nonce@[i] <= 126,
{
    let mut seed = String::new();
    push_decimal(&mut seed, nanos);
    seed.append(":");
    seed.append(peer);
    seed.append(":");
    push_decimal(&mut seed, connections as u128);
    assert(seed@ =~= nonce_seed(nanos, peer@, connections));
    let digest: [u8; NONCE_LENGTH] = sha1(seed.as_str().as_bytes());
    let mut nonce: Vec<u8> = Vec::new();
    let mut at: usize = 0;
    while at < NONCE_LENGTH
        invariant
            at <= NONCE_LENGTH,
            nonce@ == printable(digest@).take(at as int),
        decreases NONCE_LENGTH - at,
    {
        nonce.push(33 + digest[at] % 94);
        at += 1;
        assert(nonce@ =~= printable(digest@).take(at as int));
    }
    assert(nonce@ =~= printable(digest@));
    nonce
}


} // verus!
