//! The client's side of one connection to a server: the login, a query
//! and its rows, a statement and its count. The text protocol only, which
//! is what `COM_QUERY` gives.
//!
//! What is read and written here is decided from the packets that arrived:
//! whoever holds the connection reads a packet, hands it in, and sends what
//! comes out.

use crate::error::{agrees, lasting, passing, Fault};
use crate::error::{protocol_error, TransportError};
use crate::handshake::{
    decode_auth_switch, decode_handshake, encode_response, scramble, HandshakeResponse41, Login,
    CAPABILITIES, CLIENT_PROTOCOL_41, NATIVE_PASSWORD,
};
use crate::handshake::{
    greeting_of, response_bytes, scrambled, switch_of, takes_up, Greeting, Response,
};
use crate::result::{
    column_count_of, column_name_of, reply_in_result_set, reply_of, row_of, ReplyView,
};
use crate::result::{
    decode_column, decode_column_count, decode_in_result_set, decode_reply, decode_row, Reply,
    EOF_HEADER, ERR_HEADER,
};
use crate::text::decimal_text;
use crate::text::{chars_of, push_decimal};
use crate::wire::{command_bytes, next_sequence, packets, CommandView};
use crate::wire::{encode_command, frame, frame_after, Command};
use vstd::prelude::*;
use vstd::string::StringExecFns;

verus! {

/// A plugin asking for more than one response.
pub const AUTH_MORE_DATA: u8 = 0x01;

/// What a query came back with.
#[derive(Clone, Debug, Default, PartialEq, Eq)]
pub struct QueryResult {
    pub columns: Vec<String>,
    /// Each row, each column as text or NULL.
    pub rows: Vec<Vec<Option<String>>>,
    /// What a statement without rows reported; zero for a result set.
    pub affected_rows: u64,
}

/// What a query came back with, as texts.
pub struct ResultSet {
    pub columns: Seq<Seq<char>>,
    pub rows: Seq<Seq<Option<Seq<char>>>>,
    pub affected_rows: u64,
}

impl View for QueryResult {
    type V = ResultSet;

    open spec fn view(&self) -> ResultSet {
        ResultSet {
            columns: self.columns.deep_view(),
            rows: self.rows.deep_view(),
            affected_rows: self.affected_rows,
        }
    }
}

// What a server refuses with.

/// A state of a class that a later attempt may not meet: the connection's or
/// a transaction's.
pub open spec fn transient_class(state: Seq<char>) -> bool {
    state.len() >= 2 && (state[0] == '0' && state[1] == '8' || state[0] == '4' && state[1] == '0')
}

/// A code that a later attempt may not meet: too many connections, a server
/// that is shutting down or was shut down, a lock that was not had in time, a
/// deadlock, a query that was interrupted.
pub open spec fn transient_code(code: u16) -> bool {
    code == 1040 || code == 1053 || code == 1077 || code == 1205 || code == 1213 || code == 1317
}

/// What an error that a server answered says.
pub open spec fn answer_text(code: u16, state: Seq<char>, message: Seq<char>) -> Seq<char> {
    "the server answered "@ + decimal_text(code as nat) + " ("@ + state + "): "@ + message
}

/// The fault of an error that a server answered.
pub open spec fn sql_fault(code: u16, state: Seq<char>, message: Seq<char>) -> Fault {
    if transient_code(code) || transient_class(state) {
        passing(answer_text(code, state, message))
    } else {
        lasting(answer_text(code, state, message))
    }
}

/// True where `state` is of a class that a later attempt may not meet.
fn is_transient_class(state: &str) -> (transient: bool)
    ensures
        transient == transient_class(state@),
{
    let chars = chars_of(state);
    chars.len() >= 2 && ((chars[0] == '0' && chars[1] == '8') || (chars[0] == '4' && chars[1]
        == '0'))
}

/// An error the server answered, retryable where the code or the SQLSTATE
/// class says the trouble is the connection, the server's load, a lock or
/// a deadlock - what a later attempt might not meet.
#[must_use]
pub fn sql_error(code: u16, state: &str, message: &str) -> (error: TransportError)
    ensures
        error@ == sql_fault(code, state@, message@),
{
    let mut text = "the server answered ".to_owned();
    push_decimal(&mut text, code as u128);
    text.append(" (");
    text.append(state);
    text.append("): ");
    text.append(message);
    if code == 1040 || code == 1053 || code == 1077 || code == 1205 || code == 1213 || code == 1317
        || is_transient_class(state) {
        TransportError::retryable(text)
    } else {
        TransportError::permanent(text)
    }
}

/// Bytes in decimal with a comma between them.
pub open spec fn listed(bytes: Seq<u8>) -> Seq<char>
    decreases bytes.len(),
{
    if bytes.len() == 0 {
        seq![]
    } else if bytes.len() == 1 {
        decimal_text(bytes[0] as nat)
    } else {
        listed(bytes.drop_last()) + ", "@ + decimal_text(bytes.last() as nat)
    }
}

/// The fault of a reply, written out, that is not the error it was to be.
pub open spec fn unexpected(reply: Seq<char>) -> Fault {
    lasting(reply + " where an error was expected"@)
}

/// The fault that an ERR reply carries; any other reply, written out field by
/// field, is a broken protocol.
pub open spec fn refusal(reply: ReplyView) -> Fault {
    match reply {
        ReplyView::Error { code, state, message } => sql_fault(code, state, message),
        ReplyView::Okay { affected_rows, last_insert_id, status, warnings } => unexpected(
            "Ok { affected_rows: "@ + decimal_text(affected_rows as nat) + ", last_insert_id: "@
                + decimal_text(last_insert_id as nat) + ", status: "@ + decimal_text(status as nat)
                + ", warnings: "@ + decimal_text(warnings as nat) + " }"@,
        ),
        ReplyView::Eof { warnings, status } => unexpected(
            "Eof { warnings: "@ + decimal_text(warnings as nat) + ", status: "@ + decimal_text(
                status as nat,
            ) + " }"@,
        ),
        ReplyView::Data(bytes) => unexpected("Data(["@ + listed(bytes) + "])"@),
    }
}

/// Adds `bytes` to `text` in decimal with a comma between them.
fn push_listed(text: &mut String, bytes: &[u8])
    ensures
        final(text)@ == old(text)@ + listed(bytes@),
{
    let ghost before = text@;
    let mut at: usize = 0;
    assert(listed(bytes@.take(0)) =~= seq![]);
    assert(text@ =~= before + listed(bytes@.take(0)));
    while at < bytes.len()
        invariant
            at <= bytes@.len(),
            text@ == before + listed(bytes@.take(at as int)),
        decreases bytes@.len() - at,
    {
        if at > 0 {
            text.append(", ");
        }
        push_decimal(text, bytes[at] as u128);
        at += 1;
        proof {
            let taken = bytes@.take(at as int);
            assert(taken.drop_last() =~= bytes@.take(at - 1));
            assert(taken.last() == bytes@[at - 1]);
            assert(text@ =~= before + listed(taken));
        }
    }
    assert(bytes@.take(at as int) =~= bytes@);
}

/// The error an ERR reply carries; anything else is a broken protocol.
#[must_use]
pub fn refused(reply: Reply) -> (error: TransportError)
    ensures
        error@ == refusal(reply@),
{
    let mut text: String;
    match reply {
        Reply::Error { code, state, message } => {
            return sql_error(code, state.as_str(), message.as_str());
        },
        Reply::Okay { affected_rows, last_insert_id, status, warnings } => {
            text = "Ok { affected_rows: ".to_owned();
            push_decimal(&mut text, affected_rows as u128);
            text.append(", last_insert_id: ");
            push_decimal(&mut text, last_insert_id as u128);
            text.append(", status: ");
            push_decimal(&mut text, status as u128);
            text.append(", warnings: ");
            push_decimal(&mut text, warnings as u128);
            text.append(" }");
        },
        Reply::Eof { warnings, status } => {
            text = "Eof { warnings: ".to_owned();
            push_decimal(&mut text, warnings as u128);
            text.append(", status: ");
            push_decimal(&mut text, status as u128);
            text.append(" }");
        },
        Reply::Data(bytes) => {
            text = "Data([".to_owned();
            push_listed(&mut text, bytes.as_slice());
            text.append("])");
        },
    }
    text.append(" where an error was expected");
    protocol_error(text.as_str())
}

// Quoting.

/// A character as a string literal writes it.
pub open spec fn escaped(c: char) -> Seq<char> {
    match c {
        '\'' => seq!['\\', '\''],
        '\\' => seq!['\\', '\\'],
        '\0' => seq!['\\', '0'],
        '\n' => seq!['\\', 'n'],
        '\r' => seq!['\\', 'r'],
        '\u{1a}' => seq!['\\', 'Z'],
        _ => seq![c],
    }
}

/// Text as a string literal writes it, between its quotes.
pub open spec fn escaped_text(text: Seq<char>) -> Seq<char>
    decreases text.len(),
{
    if text.len() == 0 {
        seq![]
    } else {
        escaped(text[0]) + escaped_text(text.drop_first())
    }
}

/// Text as a string literal.
pub open spec fn quoted_literal(text: Seq<char>) -> Seq<char> {
    seq!['\''] + escaped_text(text) + seq!['\'']
}

/// Text with every backtick doubled.
pub open spec fn doubled(text: Seq<char>) -> Seq<char>
    decreases text.len(),
{
    if text.len() == 0 {
        seq![]
    } else {
        (if text[0] == '`' {
            seq!['`', '`']
        } else {
            seq![text[0]]
        }) + doubled(text.drop_first())
    }
}

/// A name as an identifier in backticks.
pub open spec fn quoted_identifier(name: Seq<char>) -> Seq<char> {
    seq!['`'] + doubled(name) + seq!['`']
}

/// Adds `c` to `out` as a string literal writes it.
fn push_escaped(out: &mut String, c: char)
    ensures
        final(out)@ == old(out)@ + escaped(c),
{
    let ghost before = out@;
    match c {
        '\'' => {
            out.push('\\');
            out.push('\'');
        },
        '\\' => {
            out.push('\\');
            out.push('\\');
        },
        '\0' => {
            out.push('\\');
            out.push('0');
        },
        '\n' => {
            out.push('\\');
            out.push('n');
        },
        '\r' => {
            out.push('\\');
            out.push('r');
        },
        '\u{1a}' => {
            out.push('\\');
            out.push('Z');
        },
        _ => out.push(c),
    }
    assert(out@ =~= before + escaped(c));
}

/// `text` as a string literal: quoted, with the backslash escapes the
/// server reads unless `NO_BACKSLASH_ESCAPES` is on - a quote, a
/// backslash, a NUL and the line ends each written out.
#[must_use]
pub fn quote_literal(text: &str) -> (literal: String)
    ensures
        literal@ == quoted_literal(text@),
{
    let chars = chars_of(text);
    let mut out = String::new();
    out.push('\'');
    let mut at: usize = 0;
    assert(chars@.skip(0) =~= text@);
    assert(out@ =~= seq!['\'']);
    assert(seq!['\''] + escaped_text(text@) == out@ + escaped_text(chars@.skip(0)));
    while at < chars.len()
        invariant
            at <= chars@.len(),
            chars@ == text@,
            seq!['\''] + escaped_text(text@) == out@ + escaped_text(chars@.skip(at as int)),
        decreases chars@.len() - at,
    {
        let ghost before = out@;
        push_escaped(&mut out, chars[at]);
        proof {
            let rest = chars@.skip(at + 1);
            assert(chars@.skip(at as int).drop_first() =~= rest);
            assert(before + (escaped(chars@[at as int]) + escaped_text(rest)) =~= out@
                + escaped_text(rest));
        }
        at += 1;
    }
    out.push('\'');
    assert(out@ =~= quoted_literal(text@));
    out
}

/// `name` as an identifier: in backticks, every backtick doubled.
#[must_use]
pub fn quote_identifier(name: &str) -> (identifier: String)
    ensures
        identifier@ == quoted_identifier(name@),
{
    let chars = chars_of(name);
    let mut out = String::new();
    out.push('`');
    let mut at: usize = 0;
    assert(chars@.skip(0) =~= name@);
    assert(out@ =~= seq!['`']);
    assert(seq!['`'] + doubled(name@) == out@ + doubled(chars@.skip(0)));
    while at < chars.len()
        invariant
            at <= chars@.len(),
            chars@ == name@,
            seq!['`'] + doubled(name@) == out@ + doubled(chars@.skip(at as int)),
        decreases chars@.len() - at,
    {
        let c: char = chars[at];
        let ghost before = out@;
        out.push(c);
        if c == '`' {
            out.push('`');
        }
        proof {
            let rest = chars@.skip(at + 1);
            assert(chars@.skip(at as int).drop_first() =~= rest);
            assert(before + doubled(chars@.skip(at as int)) =~= out@ + doubled(rest));
        }
        at += 1;
    }
    out.push('`');
    assert(out@ =~= quoted_identifier(name@));
    out
}

/// The fault of a server that closed before what a client waits for.
pub open spec fn closed_early(waiting_for: Seq<char>) -> Fault {
    lasting("the server closed before "@ + waiting_for)
}

// The login.

/// What a client answers a greeting with: its user, the password scrambled
/// with the greeting's nonce, and the database.
pub open spec fn login_response(
    user: Seq<char>,
    password: Seq<char>,
    database: Seq<char>,
    nonce: Seq<u8>,
) -> Response {
    Response {
        capabilities: CAPABILITIES,
        user,
        auth_response: scrambled(password, nonce),
        database,
        plugin: NATIVE_PASSWORD@,
    }
}

/// The greeting that a login can answer: what opens the connection, where it
/// is a 4.1 greeting and neither a refusal nor nothing.
pub open spec fn greeting_in(packet: Option<Seq<u8>>) -> Result<Greeting, Fault> {
    match packet {
        None => Err(closed_early("the greeting"@)),
        Some(payload) => if payload.len() > 0 && payload[0] == ERR_HEADER {
            match reply_of(payload) {
                Err(fault) => Err(fault),
                Ok(reply) => Err(refusal(reply)),
            }
        } else {
            match greeting_of(payload) {
                Err(fault) => Err(fault),
                Ok(greeting) => if takes_up(greeting.capabilities, CLIENT_PROTOCOL_41) {
                    Ok(greeting)
                } else {
                    Err(lasting("a server without protocol 4.1"@))
                },
            }
        },
    }
}

/// The bytes that answer a greeting.
pub open spec fn login_request(
    user: Seq<char>,
    password: Seq<char>,
    database: Seq<char>,
    greeting: Greeting,
) -> Seq<u8> {
    packets(1, response_bytes(login_response(user, password, database, greeting.nonce)))
}

/// What a switch to `plugin` is answered with: the password scrambled with
/// the new nonce, where the plugin is the native one.
pub open spec fn switched(
    sequence: u8,
    plugin: Seq<char>,
    nonce: Seq<u8>,
    password: Seq<char>,
) -> Result<Option<Seq<u8>>, Fault> {
    if plugin == NATIVE_PASSWORD@ {
        Ok(Some(packets(next_sequence(sequence), scrambled(password, nonce))))
    } else {
        Err(
            lasting(
                "the server asks for "@ + plugin
                    + ", and this crate speaks mysql_native_password only"@,
            ),
        )
    }
}

/// What a login's answer comes to: nothing more where the client is in, and
/// bytes to send where the server switches plugins.
pub open spec fn login_outcome(packet: Option<(u8, Seq<u8>)>, password: Seq<char>) -> Result<
    Option<Seq<u8>>,
    Fault,
> {
    match packet {
        None => Err(closed_early("the login's answer"@)),
        Some((sequence, payload)) => match reply_of(payload) {
            Err(fault) => Err(fault),
            Ok(ReplyView::Okay { .. }) => Ok(None),
            Ok(ReplyView::Error { code, state, message }) => Err(sql_fault(code, state, message)),
            Ok(ReplyView::Eof { .. }) => Err(
                lasting(
                    "the server asks for the pre-4.1 password, which this crate does not speak"@,
                ),
            ),
            Ok(ReplyView::Data(bytes)) => if bytes[0] == EOF_HEADER {
                match switch_of(bytes) {
                    Err(fault) => Err(fault),
                    Ok((plugin, nonce)) => switched(sequence, plugin, nonce, password),
                }
            } else if bytes[0] == AUTH_MORE_DATA {
                Err(lasting("the server asks for more than the native password gives"@))
            } else {
                Err(lasting("the server answered the login with data"@))
            },
        },
    }
}

/// A packet's payload, where there was a packet.
pub open spec fn payload_of(packet: Option<(u8, Vec<u8>)>) -> Option<Seq<u8>> {
    match packet {
        None => None,
        Some((_, payload)) => Some(payload@),
    }
}

/// A packet as its sequence byte and its payload, where there was one.
pub open spec fn packet_of(packet: Option<(u8, Vec<u8>)>) -> Option<(u8, Seq<u8>)> {
    match packet {
        None => None,
        Some((sequence, payload)) => Some((sequence, payload@)),
    }
}

/// The payload of a packet that was waited for.
///
/// # Errors
/// There was none: the server closed.
fn arrived(packet: Option<(u8, Vec<u8>)>, waiting_for: &str) -> (result: Result<
    (u8, Vec<u8>),
    TransportError,
>)
    ensures
        match (result, packet) {
            (Ok((sequence, payload)), Some(read)) => sequence == read.0 && payload@ == read.1@,
            (Err(error), None) => error@ == closed_early(waiting_for@),
            _ => false,
        },
{
    match packet {
        Some(read) => Ok(read),
        None => {
            let mut message = "the server closed before ".to_owned();
            message.append(waiting_for);
            Err(TransportError::permanent(message))
        },
    }
}

/// A client that has answered a server's greeting.
pub struct Client {
    server_version: String,
    connection_id: u32,
}

impl Client {
    /// What the server said it was.
    pub closed spec fn version(&self) -> Seq<char> {
        self.server_version@
    }

    /// The id the server gave this connection.
    pub closed spec fn id(&self) -> u32 {
        self.connection_id
    }

    /// Answer the greeting that opened a connection, to log in to `database`
    /// as `login`: the client, and the bytes to send. [`Client::logged_in`]
    /// takes what the server makes of them.
    ///
    /// # Errors
    /// Where the server closed, refused the connection, or did not greet
    /// with protocol 4.1.
    pub fn connect(packet: Option<(u8, Vec<u8>)>, database: &str, login: &Login) -> (result: Result<
        (Self, Vec<u8>),
        TransportError,
    >)
        ensures
            match (result, greeting_in(payload_of(packet))) {
                (Ok((client, bytes)), Ok(greeting)) => {
                    &&& client.version() == greeting.server_version
                    &&& client.id() == greeting.connection_id
                    &&& bytes@ == login_request(
                        login.user@,
                        login.password@,
                        database@,
                        greeting,
                    )
                },
                (Err(error), Err(fault)) => error@ == fault,
                _ => false,
            },
    {
        let (_, payload) = arrived(packet, "the greeting")?;
        if payload.len() > 0 && payload[0] == ERR_HEADER {
            return Err(refused(decode_reply(payload.as_slice())?));
        }
        let greeting = decode_handshake(payload.as_slice())?;
        if greeting.capabilities & CLIENT_PROTOCOL_41 == 0 {
            return Err(protocol_error("a server without protocol 4.1"));
        }
        let response = HandshakeResponse41 {
            capabilities: CAPABILITIES,
            user: login.user.clone(),
            auth_response: scramble(login.password.as_str(), greeting.nonce.as_slice()),
            database: database.to_owned(),
            plugin: NATIVE_PASSWORD.to_owned(),
        };
        let mut sequence: u8 = 1;
        let bytes = frame(&mut sequence, encode_response(&response).as_slice());
        let client = Client {
            server_version: greeting.server_version,
            connection_id: greeting.connection_id,
        };
        Ok((client, bytes))
    }

    /// What the server made of a login: `None` where the client is in, and
    /// the bytes to send where the server switched plugins and waits for
    /// another answer.
    ///
    /// # Errors
    /// Where the server closed, refused the login, or asks for a plugin other
    /// than `mysql_native_password`, which this crate does not speak.
    pub fn logged_in(&self, packet: Option<(u8, Vec<u8>)>, login: &Login) -> (result: Result<
        Option<Vec<u8>>,
        TransportError,
    >)
        ensures
            match (result, login_outcome(packet_of(packet), login.password@)) {
                (Ok(Some(bytes)), Ok(Some(expected))) => bytes@ == expected,
                (Ok(None), Ok(None)) => true,
                (Err(error), Err(fault)) => error@ == fault,
                _ => false,
            },
    {
        let (sequence, payload) = arrived(packet, "the login's answer")?;
        match decode_reply(payload.as_slice())? {
            Reply::Okay { .. } => Ok(None),
            Reply::Error { code, state, message } => Err(
                sql_error(code, state.as_str(), message.as_str()),
            ),
            Reply::Eof { .. } => Err(
                protocol_error(
                    "the server asks for the pre-4.1 password, which this crate does not speak",
                ),
            ),
            Reply::Data(bytes) => if bytes[0] == EOF_HEADER {
                let (plugin, nonce) = decode_auth_switch(bytes.as_slice())?;
                answer_switch(sequence, plugin, nonce, login.password.as_str())
            } else if bytes[0] == AUTH_MORE_DATA {
                Err(protocol_error("the server asks for more than the native password gives"))
            } else {
                Err(protocol_error("the server answered the login with data"))
            },
        }
    }

    /// What the server said it was, `8.4.0` say.
    #[must_use]
    pub fn server_version(&self) -> (version: &str)
        ensures
            version@ == self.version(),
    {
        self.server_version.as_str()
    }

    /// The id the server gave this connection.
    #[must_use]
    pub fn connection_id(&self) -> (id: u32)
        ensures
            id == self.id(),
    {
        self.connection_id
    }
}

/// The bytes that answer a switch to `plugin`.
///
/// # Errors
/// The plugin is not the native one.
fn answer_switch(sequence: u8, plugin: String, nonce: Vec<u8>, password: &str) -> (result: Result<
    Option<Vec<u8>>,
    TransportError,
>)
    ensures
        match (result, switched(sequence, plugin@, nonce@, password@)) {
            (Ok(Some(bytes)), Ok(Some(expected))) => bytes@ == expected,
            (Ok(None), Ok(None)) => true,
            (Err(error), Err(fault)) => error@ == fault,
            _ => false,
        },
{
    if plugin == NATIVE_PASSWORD.to_owned() {
        let answer = scramble(password, nonce.as_slice());
        Ok(Some(frame_after(sequence, answer.as_slice())))
    } else {
        let mut message = "the server asks for ".to_owned();
        message.append(plugin.as_str());
        message.append(", and this crate speaks mysql_native_password only");
        Err(TransportError::permanent(message))
    }
}

// A query and its rows.

/// The bytes that ask a server to run a statement.
pub open spec fn query_request(sql: Seq<char>) -> Seq<u8> {
    packets(0, command_bytes(CommandView::Query(sql)))
}

/// The bytes that say goodbye.
pub open spec fn goodbye() -> Seq<u8> {
    packets(0, command_bytes(CommandView::Quit))
}

/// How far the answer to a query has come.
pub enum Query {
    /// Nothing has come.
    Opening,
    /// The count of columns has come, and the definitions of some of them.
    Columns { count: usize, columns: Vec<String> },
    /// The columns have come, and some of the rows.
    Rows { count: usize, columns: Vec<String>, rows: Vec<Vec<Option<String>>> },
}

/// How far the answer to a query has come, as texts.
pub enum QueryView {
    Opening,
    Columns { count: usize, columns: Seq<Seq<char>> },
    Rows { count: usize, columns: Seq<Seq<char>>, rows: Seq<Seq<Option<Seq<char>>>> },
}

impl View for Query {
    type V = QueryView;

    open spec fn view(&self) -> QueryView {
        match self {
            Query::Opening => QueryView::Opening,
            Query::Columns { count, columns } => QueryView::Columns {
                count: *count,
                columns: columns.deep_view(),
            },
            Query::Rows { count, columns, rows } => QueryView::Rows {
                count: *count,
                columns: columns.deep_view(),
                rows: rows.deep_view(),
            },
        }
    }
}

/// What a packet of an answer comes to.
pub enum Progress {
    /// The answer goes on.
    Waiting(Query),
    /// The answer is complete.
    Complete(QueryResult),
}

/// What a packet of an answer comes to, as texts.
pub enum ProgressView {
    Waiting(QueryView),
    Complete(ResultSet),
}

impl View for Progress {
    type V = ProgressView;

    open spec fn view(&self) -> ProgressView {
        match self {
            Progress::Waiting(query) => ProgressView::Waiting(query@),
            Progress::Complete(result) => ProgressView::Complete(result@),
        }
    }
}

/// What the answer to a query waits for.
pub open spec fn awaited(query: QueryView) -> Seq<char> {
    match query {
        QueryView::Opening => "the query's answer"@,
        QueryView::Columns { count, columns } => if columns.len() < count {
            "a column definition"@
        } else {
            "the end of the columns"@
        },
        QueryView::Rows { .. } => "a row"@,
    }
}

/// What the first packet of an answer comes to: the count of a statement
/// without rows, or the columns of a result set to come.
pub open spec fn opened(payload: Seq<u8>) -> Result<ProgressView, Fault> {
    match reply_of(payload) {
        Err(fault) => Err(fault),
        Ok(ReplyView::Okay { affected_rows, .. }) => Ok(
            ProgressView::Complete(ResultSet { columns: seq![], rows: seq![], affected_rows }),
        ),
        Ok(ReplyView::Error { code, state, message }) => Err(sql_fault(code, state, message)),
        Ok(ReplyView::Eof { .. }) => Err(lasting("EOF where a result set should open"@)),
        Ok(ReplyView::Data(bytes)) => match column_count_of(bytes) {
            Err(fault) => Err(fault),
            Ok(count) => Ok(
                ProgressView::Waiting(QueryView::Columns { count, columns: seq![] }),
            ),
        },
    }
}

/// What a packet after some of the columns comes to: the definition of the
/// next, or the EOF that ends them.
pub open spec fn column_step(count: usize, columns: Seq<Seq<char>>, payload: Seq<u8>) -> Result<
    ProgressView,
    Fault,
> {
    if columns.len() < count {
        match column_name_of(payload) {
            Err(fault) => Err(fault),
            Ok(name) => Ok(
                ProgressView::Waiting(QueryView::Columns { count, columns: columns.push(name) }),
            ),
        }
    } else {
        match reply_in_result_set(payload) {
            Err(fault) => Err(fault),
            Ok(ReplyView::Eof { .. }) => Ok(
                ProgressView::Waiting(QueryView::Rows { count, columns, rows: seq![] }),
            ),
            Ok(ReplyView::Error { code, state, message }) => Err(sql_fault(code, state, message)),
            Ok(_) => Err(lasting("no EOF after the column definitions"@)),
        }
    }
}

/// What a packet after the columns and some of the rows comes to: the next
/// row, or the EOF that ends them.
pub open spec fn row_step(
    count: usize,
    columns: Seq<Seq<char>>,
    rows: Seq<Seq<Option<Seq<char>>>>,
    payload: Seq<u8>,
) -> Result<ProgressView, Fault> {
    match reply_in_result_set(payload) {
        Err(fault) => Err(fault),
        Ok(ReplyView::Eof { .. }) => Ok(
            ProgressView::Complete(ResultSet { columns, rows, affected_rows: 0 }),
        ),
        Ok(ReplyView::Error { code, state, message }) => Err(sql_fault(code, state, message)),
        Ok(ReplyView::Data(bytes)) => match row_of(bytes, count as nat) {
            Err(fault) => Err(fault),
            Ok(row) => Ok(
                ProgressView::Waiting(QueryView::Rows { count, columns, rows: rows.push(row) }),
            ),
        },
        Ok(ReplyView::Okay { .. }) => Err(lasting("OK in the middle of the rows"@)),
    }
}

/// What a packet of an answer comes to.
pub open spec fn query_step(query: QueryView, packet: Option<Seq<u8>>) -> Result<
    ProgressView,
    Fault,
> {
    match packet {
        None => Err(closed_early(awaited(query))),
        Some(payload) => match query {
            QueryView::Opening => opened(payload),
            QueryView::Columns { count, columns } => column_step(count, columns, payload),
            QueryView::Rows { count, columns, rows } => row_step(count, columns, rows, payload),
        },
    }
}

impl Query {
    /// What the answer waits for.
    fn waiting_for(&self) -> (text: &'static str)
        ensures
            text@ == awaited(self@),
    {
        match self {
            Query::Opening => "the query's answer",
            Query::Columns { count, columns } => if columns.len() < *count {
                "a column definition"
            } else {
                "the end of the columns"
            },
            Query::Rows { .. } => "a row",
        }
    }

    /// Take the next packet of the answer, `None` where the server closed.
    ///
    /// # Errors
    /// Where the server went away or answered with an error.
    pub fn next(self, packet: Option<(u8, Vec<u8>)>) -> (result: Result<Progress, TransportError>)
        ensures
            agrees(result, query_step(self@, payload_of(packet))),
    {
        let waiting_for = self.waiting_for();
        let (_, payload) = arrived(packet, waiting_for)?;
        match self {
            Query::Opening => take_opening(payload.as_slice()),
            Query::Columns { count, columns } => take_column(count, columns, payload.as_slice()),
            Query::Rows { count, columns, rows } => take_row(
                count,
                columns,
                rows,
                payload.as_slice(),
            ),
        }
    }
}

/// The first packet of an answer.
fn take_opening(payload: &[u8]) -> (result: Result<Progress, TransportError>)
    ensures
        agrees(result, opened(payload@)),
{
    match decode_reply(payload)? {
        Reply::Okay { affected_rows, .. } => {
            let result = QueryResult { columns: Vec::new(), rows: Vec::new(), affected_rows };
            assert(result@.columns =~= seq![]);
            assert(result@.rows =~= seq![]);
            Ok(Progress::Complete(result))
        },
        Reply::Error { code, state, message } => Err(
            sql_error(code, state.as_str(), message.as_str()),
        ),
        Reply::Eof { .. } => Err(protocol_error("EOF where a result set should open")),
        Reply::Data(bytes) => {
            let count: usize = decode_column_count(bytes.as_slice())?;
            let columns: Vec<String> = Vec::new();
            assert(columns.deep_view() =~= seq![]);
            Ok(Progress::Waiting(Query::Columns { count, columns }))
        },
    }
}

/// A packet after some of the columns.
fn take_column(count: usize, columns: Vec<String>, payload: &[u8]) -> (result: Result<
    Progress,
    TransportError,
>)
    ensures
        agrees(result, column_step(count, columns.deep_view(), payload@)),
{
    let mut columns = columns;
    let ghost before = columns.deep_view();
    if columns.len() < count {
        let name = decode_column(payload)?;
        let ghost read = name@;
        columns.push(name);
        assert(columns.deep_view() =~= before.push(read));
        return Ok(Progress::Waiting(Query::Columns { count, columns }));
    }
    match decode_in_result_set(payload)? {
        Reply::Eof { .. } => {
            let rows: Vec<Vec<Option<String>>> = Vec::new();
            assert(rows.deep_view() =~= seq![]);
            Ok(Progress::Waiting(Query::Rows { count, columns, rows }))
        },
        Reply::Error { code, state, message } => Err(
            sql_error(code, state.as_str(), message.as_str()),
        ),
        _ => Err(protocol_error("no EOF after the column definitions")),
    }
}

/// A packet after the columns and some of the rows.
fn take_row(
    count: usize,
    columns: Vec<String>,
    rows: Vec<Vec<Option<String>>>,
    payload: &[u8],
) -> (result: Result<Progress, TransportError>)
    ensures
        agrees(result, row_step(count, columns.deep_view(), rows.deep_view(), payload@)),
{
    let mut rows = rows;
    let ghost before = rows.deep_view();
    match decode_in_result_set(payload)? {
        Reply::Eof { .. } => Ok(
            Progress::Complete(QueryResult { columns, rows, affected_rows: 0 }),
        ),
        Reply::Error { code, state, message } => Err(
            sql_error(code, state.as_str(), message.as_str()),
        ),
        Reply::Data(bytes) => {
            let row = decode_row(bytes.as_slice(), count)?;
            let ghost read = row.deep_view();
            rows.push(row);
            assert(rows.deep_view() =~= before.push(read));
            Ok(Progress::Waiting(Query::Rows { count, columns, rows }))
        },
        Reply::Okay { .. } => Err(protocol_error("OK in the middle of the rows")),
    }
}

impl Client {
    /// Run `sql`: the bytes to send, and the answer to hand each packet to.
    pub fn query(&self, sql: &str) -> (request: (Vec<u8>, Query))
        ensures
            request.0@ == query_request(sql@),
            request.1@ == QueryView::Opening,
    {
        let mut sequence: u8 = 0;
        let command = Command::Query(sql.to_owned());
        (frame(&mut sequence, encode_command(&command).as_slice()), Query::Opening)
    }

    /// Say goodbye: the bytes to send before hanging up.
    pub fn close(self) -> (bytes: Vec<u8>)
        ensures
            bytes@ == goodbye(),
    {
        let mut sequence: u8 = 0;
        frame(&mut sequence, encode_command(&Command::Quit).as_slice())
    }
}


} // verus!
