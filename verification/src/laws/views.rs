//! What the values of the library are read as: their own fields, each under
//! its name.

use crate::client::{
    packet_of, payload_of, Progress, ProgressView, Query, QueryResult, QueryView, ResultSet,
};
use crate::error::{agrees, Fault, TransportError};
use crate::handshake::{Greeting, HandshakeResponse41, HandshakeV10, Response};
use crate::result::{Reply, ReplyView};
use crate::session::{Answer, AnswerView, Event, EventView, Session, SessionView};
use crate::stream::{Arrived, ArrivedView};
use crate::wire::{Command, CommandView};
use vstd::prelude::*;

verus! {

/// A result is the one that was to come where it is the same value or the
/// same fault, message and verdict.
pub proof fn results_agree_in_value_or_fault(
    value: Vec<u8>,
    expected: Seq<u8>,
    error: TransportError,
    fault: Fault,
)
    ensures
        agrees(Ok::<Vec<u8>, TransportError>(value), Ok::<Seq<u8>, Fault>(expected)) <==> value@
            == expected,
        agrees(Err::<Vec<u8>, TransportError>(error), Err::<Seq<u8>, Fault>(fault)) <==> (
        error.message@ == fault.message && error.retryable == fault.retryable),
        !agrees(Ok::<Vec<u8>, TransportError>(value), Err::<Seq<u8>, Fault>(fault)),
        !agrees(Err::<Vec<u8>, TransportError>(error), Ok::<Seq<u8>, Fault>(expected)),
{
}

/// A reply is read as its fields.
pub proof fn replies_are_their_fields(
    affected_rows: u64,
    last_insert_id: u64,
    status: u16,
    warnings: u16,
    code: u16,
    state: String,
    message: String,
    bytes: Vec<u8>,
)
    ensures
        (Reply::Okay { affected_rows, last_insert_id, status, warnings })@ == (ReplyView::Okay {
            affected_rows,
            last_insert_id,
            status,
            warnings,
        }),
        (Reply::Error { code, state, message })@ == (ReplyView::Error {
            code,
            state: state@,
            message: message@,
        }),
        (Reply::Eof { warnings, status })@ == (ReplyView::Eof { warnings, status }),
        Reply::Data(bytes)@ == ReplyView::Data(bytes@),
{
}

/// The packets of a login are read as their fields.
pub proof fn logins_are_their_fields(greeting: HandshakeV10, response: HandshakeResponse41)
    ensures
        greeting@ == (Greeting {
            server_version: greeting.server_version@,
            connection_id: greeting.connection_id,
            nonce: greeting.nonce@,
            capabilities: greeting.capabilities,
            plugin: greeting.plugin@,
        }),
        response@ == (Response {
            capabilities: response.capabilities,
            user: response.user@,
            auth_response: response.auth_response@,
            database: response.database@,
            plugin: response.plugin@,
        }),
{
}

/// A command, an event, an answer and a Stream are read as their fields.
pub proof fn exchanges_are_their_fields(
    sql: String,
    arrived: Arrived,
    columns: Vec<String>,
    rows: Vec<Vec<Option<String>>>,
    affected: u64,
    code: u16,
    state: String,
    message: String,
)
    ensures
        Command::Quit@ == CommandView::Quit,
        Command::Query(sql)@ == CommandView::Query(sql@),
        arrived@ == (ArrivedView { origin_uri: arrived.origin_uri@, bytes: arrived.bytes@ }),
        arrived.deep_view() == arrived@,
        Event::Selected(sql)@ == EventView::Selected(sql@),
        Event::Inserted(arrived)@ == EventView::Inserted(arrived@),
        Event::Executed(sql)@ == EventView::Executed(sql@),
        (Answer::Rows { columns, rows })@ == (AnswerView::Rows {
            columns: columns.deep_view(),
            rows: rows.deep_view(),
        }),
        Answer::Complete(affected)@ == AnswerView::Complete(affected),
        (Answer::Error { code, state, message })@ == (AnswerView::Error {
            code,
            state: state@,
            message: message@,
        }),
{
}

/// A session and the result of a query are read as their fields, and so is how
/// far an answer has come.
pub proof fn results_are_their_fields(
    session: Session,
    result: QueryResult,
    count: usize,
    columns: Vec<String>,
    rows: Vec<Vec<Option<String>>>,
    query: Query,
)
    ensures
        session@ == (SessionView {
            peer: session.peer@,
            user: session.user@,
            database: session.database@,
            columns: session.columns.deep_view(),
            rows: session.rows.deep_view(),
        }),
        result@ == (ResultSet {
            columns: result.columns.deep_view(),
            rows: result.rows.deep_view(),
            affected_rows: result.affected_rows,
        }),
        Query::Opening@ == QueryView::Opening,
        (Query::Columns { count, columns })@ == (QueryView::Columns {
            count,
            columns: columns.deep_view(),
        }),
        (Query::Rows { count, columns, rows })@ == (QueryView::Rows {
            count,
            columns: columns.deep_view(),
            rows: rows.deep_view(),
        }),
        Progress::Waiting(query)@ == ProgressView::Waiting(query@),
        Progress::Complete(result)@ == ProgressView::Complete(result@),
{
}

/// A packet that arrived is its sequence byte and its payload, and none where
/// there was none.
pub proof fn packets_are_their_payload(sequence: u8, payload: Vec<u8>)
    ensures
        payload_of(None) is None,
        payload_of(Some((sequence, payload))) == Some(payload@),
        packet_of(None) is None,
        packet_of(Some((sequence, payload))) == Some((sequence, payload@)),
{
}

} // verus!
