//! Streams that arrive as rows. One row is one Stream: the last column of
//! a configured query is what Xmip carries, the first column is where it
//! came from.
//!
//! `MySQL` and `MariaDB` are the databases the estate's partners already
//! have, and a table in one is the oldest integration surface there is: a
//! producer inserts, an integrator polls. A Receive Location runs its
//! query - `SELECT id, payload FROM inbox ORDER BY id` unless told
//! otherwise - and hands each row up; a Send Location inserts the Stream
//! as one column of one row - as text when the Stream is UTF-8 without a
//! NUL, as an `X'...'` hexadecimal literal otherwise, and a value in a hex
//! form is the bytes again on the way back (`hex.rs`). What is spoken is
//! the client/server protocol as every client since 4.1 speaks it, on
//! port 3306: the greeting, a response with the password scrambled the
//! `mysql_native_password` way (`handshake.rs`, SHA-1 from `sha1.rs`),
//! `COM_QUERY` with rows as text (`result.rs`), `COM_QUIT`.
//! `caching_sha2_password` is not implemented and a server that asks for
//! it is told so.
//!
//! The library decides and does not read or write: a [`Client`] and a
//! [`Session`] take the packets that arrived and give the bytes to send, and
//! whoever holds the connection moves them.
//!
//! The origin URI carries what the row knew: `mysql://server/orders?row=41`.
//! A send target is `mysql://host:3306/<database>/<table>/<column>`,
//! `host:3306/<database>/<table>/<column>`, or `<table>/<column>` on the
//! configured server and database.

pub mod client;
pub mod error;
pub mod handshake;
pub mod hex;
pub mod insert;
pub mod laws;
pub mod result;
pub mod scan;
pub mod session;
pub mod sha1;
pub mod stream;
pub mod text;
pub mod wire;

use crate::error::{lasting, Fault};
use crate::hex::column_bytes;
use crate::hex::{carried, literal_of, textual};
use crate::scan::before;
use crate::scan::find;
use crate::text::{chars_of, from_utf8, push_decimal, text_of};
use crate::text::{debug, debug_text, decimal_text};
use std::time::Duration;
use vstd::prelude::*;
use vstd::slice::slice_subrange;
use vstd::string::StringExecFns;
use vstd::utf8::decode_utf8;

pub use crate::client::{quote_identifier, quote_literal, Client, QueryResult};
pub use crate::error::TransportError;
pub use crate::handshake::Login;
pub use crate::session::{Answer, Event, Session};
pub use crate::stream::{Arrived, ArrivedView};

verus! {

/// What a Receive Location runs unless told otherwise.
pub const DEFAULT_QUERY: &'static str = "SELECT id, payload FROM inbox ORDER BY id";

/// A transport to one server and database, as one login.
pub struct MysqlTransport {
    pub server: String,
    pub database: String,
    pub login: Login,
    pub query: String,
    pub timeout: Option<Duration>,
}

// Where a send goes.

/// Text before and after its first `/`.
pub open spec fn split_once(text: Seq<char>) -> Option<(Seq<char>, Seq<char>)> {
    let end = before(text, '/') as int;
    if end < text.len() {
        Some((text.take(end), text.skip(end + 1)))
    } else {
        None
    }
}

/// The peer and the path of a target that opens with `scheme`, up to and with
/// its `://`.
pub open spec fn after_scheme(scheme: Seq<char>, target: Seq<char>) -> Option<
    (Seq<char>, Seq<char>),
> {
    if scheme.is_prefix_of(target) {
        split_once(target.skip(scheme.len() as int))
    } else {
        None
    }
}

/// The peer and the path of a target: of a URI of either scheme, of a peer
/// with a port and a path, and otherwise `server` and the whole target.
pub open spec fn located(server: Seq<char>, target: Seq<char>) -> (Seq<char>, Seq<char>) {
    match (
        after_scheme("mysql://"@, target),
        after_scheme("mariadb://"@, target),
        split_once(target),
    ) {
        (Some(found), _, _) => found,
        (None, Some(found), _) => found,
        (None, None, Some((peer, path))) => if peer.contains(':') {
            (peer, path)
        } else {
            (server, target)
        },
        (None, None, None) => (server, target),
    }
}

/// The parts of a path between its slashes.
pub open spec fn segments(path: Seq<char>) -> Seq<Seq<char>>
    decreases path.len(),
{
    match split_once(path) {
        Some((first, rest)) => seq![first] + segments(rest),
        None => seq![path],
    }
}

/// Where a Stream is sent.
pub struct Place {
    pub server: Seq<char>,
    pub database: Seq<char>,
    pub table: Seq<char>,
    pub column: Seq<char>,
}

/// Where a target names the server, database, table and column, or some
/// suffix of them on `server` and `database`.
pub open spec fn place_of(server: Seq<char>, database: Seq<char>, target: Seq<char>) -> Result<
    Place,
    Fault,
> {
    let (server, path) = located(server, target);
    let parts = segments(path);
    if parts.len() == 3 {
        Ok(Place { server, database: parts[0], table: parts[1], column: parts[2] })
    } else if parts.len() == 2 {
        Ok(Place { server, database, table: parts[0], column: parts[1] })
    } else {
        Err(
            lasting(
                debug_text(target) + " is not database/table/column or table/column"@,
            ),
        )
    }
}

/// `text` before and after its first `/`.
fn split_at_slash<'a>(text: &'a [char]) -> (split: Option<(&'a [char], &'a [char])>)
    ensures
        match (split, split_once(text@)) {
            (Some((first, rest)), Some(expected)) => first@ == expected.0 && rest@ == expected.1
                && rest@.len() < text@.len(),
            (None, None) => true,
            _ => false,
        },
{
    let end: usize = find(text, '/');
    if end >= text.len() {
        return None;
    }
    let first = slice_subrange(text, 0, end);
    let rest = slice_subrange(text, end + 1, text.len());
    assert(first@ =~= text@.take(end as int));
    assert(rest@ =~= text@.skip(end + 1));
    Some((first, rest))
}

/// The peer and the path of a target that opens with `scheme`.
fn strip_scheme<'a>(scheme: &str, target: &'a [char]) -> (found: Option<(&'a [char], &'a [char])>)
    ensures
        match (found, after_scheme(scheme@, target@)) {
            (Some((peer, path)), Some(expected)) => peer@ == expected.0 && path@ == expected.1,
            (None, None) => true,
            _ => false,
        },
{
    let prefix = chars_of(scheme);
    if target.len() < prefix.len() {
        return None;
    }
    let mut at: usize = 0;
    while at < prefix.len()
        invariant
            at <= prefix@.len() <= target@.len(),
            prefix@ == scheme@,
            forall|i: int| 0 <= i < at ==> target@[i] == prefix@[i],
        decreases prefix@.len() - at,
    {
        if target[at] != prefix[at] {
            return None;
        }
        at += 1;
    }
    assert(target@.take(at as int) =~= scheme@);
    let rest = slice_subrange(target, at, target.len());
    assert(rest@ =~= target@.skip(at as int));
    split_at_slash(rest)
}

/// The peer that a target names, where it names one, and the path.
fn locate<'a>(target: &'a [char]) -> (found: (Option<&'a [char]>, &'a [char]))
    ensures
        forall|server: Seq<char>|
            #[trigger] located(server, target@) == (
                match found.0 {
                    Some(peer) => peer@,
                    None => server,
                },
                found.1@,
            ),
{
    if let Some((peer, path)) = strip_scheme("mysql://", target) {
        return (Some(peer), path);
    }
    if let Some((peer, path)) = strip_scheme("mariadb://", target) {
        return (Some(peer), path);
    }
    if let Some((peer, path)) = split_at_slash(target) {
        let colon: usize = find(peer, ':');
        if colon < peer.len() {
            assert(peer@[colon as int] == ':');
            return (Some(peer), path);
        }
        proof {
            crate::scan::none_before(peer@, ':');
        }
    }
    (None, target)
}

/// The parts of `path` between its slashes.
fn split_path(path: &[char]) -> (parts: Vec<String>)
    ensures
        parts.deep_view() == segments(path@),
{
    let mut parts: Vec<String> = Vec::new();
    let mut rest = path;
    assert(parts.deep_view() + segments(path@) =~= segments(path@));
    loop
        invariant
            segments(path@) == parts.deep_view() + segments(rest@),
        decreases rest@.len(),
    {
        let ghost before = parts.deep_view();
        match split_at_slash(rest) {
            Some((first, after)) => {
                parts.push(text_of(first));
                assert(parts.deep_view() =~= before.push(first@));
                assert(before + (seq![first@] + segments(after@)) =~= parts.deep_view()
                    + segments(after@));
                rest = after;
            },
            None => {
                parts.push(text_of(rest));
                assert(parts.deep_view() =~= before.push(rest@));
                assert(parts.deep_view() =~= before + segments(rest@));
                return parts;
            },
        }
    }
}

// What a send writes.

/// Bytes as the literal that inserts them: text as a string, anything else as
/// a hexadecimal literal.
pub open spec fn value_literal(bytes: Seq<u8>) -> Seq<char> {
    if textual(bytes) {
        client::quoted_literal(decode_utf8(bytes))
    } else {
        literal_of(bytes)
    }
}

/// The statement that inserts bytes as one column of one row.
pub open spec fn insert_text(table: Seq<char>, column: Seq<char>, bytes: Seq<u8>) -> Seq<char> {
    "INSERT INTO "@ + client::quoted_identifier(table) + " ("@ + client::quoted_identifier(column)
        + ") VALUES ("@ + value_literal(bytes) + ")"@
}

/// The statement that inserts `bytes` as one column of one row: text as text,
/// anything else as a hexadecimal literal.
#[must_use]
pub fn insert_statement(table: &str, column: &str, bytes: &[u8]) -> (sql: String)
    ensures
        sql@ == insert_text(table@, column@, bytes@),
{
    let literal = match from_utf8(bytes) {
        Some(text) if hex::is_text(bytes) => quote_literal(text),
        _ => hex::hex_literal(bytes),
    };
    let mut sql = "INSERT INTO ".to_owned();
    sql.append(quote_identifier(table).as_str());
    sql.append(" (");
    sql.append(quote_identifier(column).as_str());
    sql.append(") VALUES (");
    sql.append(literal.as_str());
    sql.append(")");
    sql
}

// What a receive takes.

/// The text of a column, where it is not NULL.
pub open spec fn text_or(value: Option<Seq<char>>, otherwise: Seq<char>) -> Seq<char> {
    match value {
        Some(text) => text,
        None => otherwise,
    }
}

/// The Stream of a row: the last column is what it carries, empty where it is
/// NULL, and the first names it, as the row's index does where it is NULL.
pub open spec fn row_stream(
    server: Seq<char>,
    database: Seq<char>,
    index: nat,
    row: Seq<Option<Seq<char>>>,
) -> ArrivedView {
    let name = if row.len() > 0 {
        text_or(row[0], decimal_text(index))
    } else {
        decimal_text(index)
    };
    let value = if row.len() > 0 {
        text_or(row.last(), seq![])
    } else {
        seq![]
    };
    ArrivedView {
        origin_uri: "mysql://"@ + server + "/"@ + database + "?row="@ + name,
        bytes: carried(value),
    }
}

/// The Streams of the rows of a query, in order.
pub open spec fn row_streams(
    server: Seq<char>,
    database: Seq<char>,
    rows: Seq<Seq<Option<Seq<char>>>>,
) -> Seq<ArrivedView> {
    Seq::new(rows.len(), |i: int| row_stream(server, database, i as nat, rows[i]))
}

impl MysqlTransport {
    /// Speak to the server at `server`, on `database`, as `user` with no
    /// password until one is given.
    #[must_use]
    pub fn new(server: &str, database: &str, user: &str) -> (transport: Self)
        ensures
            transport.server@ == server@,
            transport.database@ == database@,
            transport.login.user@ == user@,
            transport.login.password@ == ""@,
            transport.query@ == DEFAULT_QUERY@,
            transport.timeout is None,
    {
        MysqlTransport {
            server: server.to_owned(),
            database: database.to_owned(),
            login: Login::new(user, ""),
            query: DEFAULT_QUERY.to_owned(),
            timeout: None,
        }
    }

    /// The password the login scrambles.
    #[must_use]
    pub fn with_password(self, password: &str) -> (transport: Self)
        ensures
            transport.login.password@ == password@,
            transport == (MysqlTransport {
                login: Login { password: transport.login.password, ..self.login },
                ..self
            }),
    {
        let login = Login { user: self.login.user, password: password.to_owned() };
        MysqlTransport {
            server: self.server,
            database: self.database,
            login,
            query: self.query,
            timeout: self.timeout,
        }
    }

    /// The query a receive runs: the first column is the row's name, the
    /// last is the Stream.
    #[must_use]
    pub fn with_query(self, query: &str) -> (transport: Self)
        ensures
            transport.query@ == query@,
            transport == (MysqlTransport { query: transport.query, ..self }),
    {
        MysqlTransport { query: query.to_owned(), ..self }
    }

    /// Give up on a server that stops mid-packet.
    #[must_use]
    pub fn timing_out_after(self, timeout: Duration) -> (transport: Self)
        ensures
            transport == (MysqlTransport { timeout: Some(timeout), ..self }),
    {
        MysqlTransport { timeout: Some(timeout), ..self }
    }

    /// Where a target names the server, database, table and column, or
    /// some suffix of them on what this transport is configured with.
    ///
    /// # Errors
    /// The target is neither.
    pub fn resolve(&self, target: &str) -> (result: Result<
        (String, String, String, String),
        TransportError,
    >)
        ensures
            match (result, place_of(self.server@, self.database@, target@)) {
                (Ok((server, database, table, column)), Ok(place)) => {
                    &&& server@ == place.server
                    &&& database@ == place.database
                    &&& table@ == place.table
                    &&& column@ == place.column
                },
                (Err(error), Err(fault)) => error@ == fault,
                _ => false,
            },
    {
        let chars = chars_of(target);
        let (peer, path) = locate(chars.as_slice());
        let server = match peer {
            Some(peer) => text_of(peer),
            None => self.server.clone(),
        };
        let ghost found = located(self.server@, target@);
        assert(found == (server@, path@));
        let parts = split_path(path);
        let ghost named = parts.deep_view();
        if parts.len() == 3 {
            assert(named[0] == parts@[0]@ && named[1] == parts@[1]@ && named[2] == parts@[2]@);
            Ok((server, parts[0].clone(), parts[1].clone(), parts[2].clone()))
        } else if parts.len() == 2 {
            assert(named[0] == parts@[0]@ && named[1] == parts@[1]@);
            Ok((server, self.database.clone(), parts[0].clone(), parts[1].clone()))
        } else {
            let mut message = debug(target);
            message.append(" is not database/table/column or table/column");
            Err(TransportError::permanent(message))
        }
    }

    /// The Stream of one row that a query gave, `index` rows into it.
    fn stream(&self, index: usize, row: &[Option<String>]) -> (arrived: Arrived)
        ensures
            arrived@ == row_stream(self.server@, self.database@, index as nat, row.deep_view()),
    {
        let ghost values = row.deep_view();
        let mut origin = "mysql://".to_owned();
        origin.append(self.server.as_str());
        origin.append("/");
        origin.append(self.database.as_str());
        origin.append("?row=");
        let mut value = String::new();
        if row.len() > 0 {
            assert(values[0] == row@[0].deep_view());
            assert(values.last() == row@.last().deep_view());
            match &row[0] {
                Some(name) => origin.append(name.as_str()),
                None => push_decimal(&mut origin, index as u128),
            }
            if let Some(text) = &row[row.len() - 1] {
                value = text.clone();
            }
        } else {
            push_decimal(&mut origin, index as u128);
        }
        assert(Seq::<char>::empty() =~= seq![]);
        Arrived::new(origin, column_bytes(value))
    }

    /// The Streams that the rows of a query are.
    #[must_use]
    pub fn streams(&self, result: QueryResult) -> (arrived: Vec<Arrived>)
        ensures
            arrived.deep_view() == row_streams(self.server@, self.database@, result@.rows),
    {
        let ghost expected = row_streams(self.server@, self.database@, result@.rows);
        let mut arrived: Vec<Arrived> = Vec::new();
        let mut at: usize = 0;
        while at < result.rows.len()
            invariant
                at <= result.rows@.len(),
                expected == row_streams(self.server@, self.database@, result@.rows),
                arrived.deep_view() == expected.take(at as int),
            decreases result.rows@.len() - at,
        {
            let ghost before = arrived.deep_view();
            let stream = self.stream(at, result.rows[at].as_slice());
            let ghost taken = stream@;
            arrived.push(stream);
            assert(result@.rows[at as int] =~= result.rows@[at as int].deep_view());
            assert(arrived.deep_view() =~= before.push(taken));
            assert(arrived.deep_view() =~= expected.take(at + 1));
            at += 1;
        }
        assert(expected.take(at as int) =~= expected);
        arrived
    }
}


} // verus!
