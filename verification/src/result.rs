//! What a server answers with: the OK packet that completes a statement
//! and closes the login, the ERR packet that refuses either, the EOF
//! packet that bounds the columns and the rows of a result set, and the
//! result set itself - a column count, one definition a column, one text
//! row a row. Written here as well as read, because the far-end
//! [`crate::Session`] writes exactly these.
//!
//! The first byte tells the packets apart: `0x00` opens OK, `0xFF` opens
//! ERR, `0xFE` in a packet under nine bytes is EOF, and anything else is
//! the column count that opens a result set - or, inside one, a row.

use crate::error::{agrees, lasting, Fault};
use crate::error::{protocol_error, TransportError};
use crate::text::{from_utf8_lossy, lossy_text, lossy_text_of_text};
use crate::wire::{append, append_le, lenenc_bytes, lenenc_int, Cursor};
use crate::wire::{
    bytes_read_back, int16_read_back, le_bytes, le_bytes_length, lenenc, lenenc_read_back,
    lenenc_str_read_back, lenenc_string, read_bytes, read_int16, read_lenenc, read_lenenc_str,
    Field,
};
use vstd::prelude::*;
use vstd::slice::{slice_subrange, slice_to_vec};
use vstd::utf8::{encode_utf8, is_char_boundary};

verus! {

/// Opens an OK packet.
pub const OK_HEADER: u8 = 0x00;

/// Opens an ERR packet.
pub const ERR_HEADER: u8 = 0xff;

/// Opens an EOF packet, and an authentication switch.
pub const EOF_HEADER: u8 = 0xfe;

/// A NULL in a text row.
pub const NULL_VALUE: u8 = 0xfb;

/// The column type a definition names: `MYSQL_TYPE_VAR_STRING`.
pub const VAR_STRING: u8 = 0xfd;

/// The rest of a definition after its names is twelve bytes.
pub const FIXED_FIELDS: u64 = 0x0c;

/// The character that opens the state of an ERR packet.
pub const STATE_MARKER: u8 = 35;

/// What a server sends in answer.
#[derive(Clone, Debug, PartialEq, Eq)]
pub enum Reply {
    Okay { affected_rows: u64, last_insert_id: u64, status: u16, warnings: u16 },
    Error { code: u16, state: String, message: String },
    Eof { warnings: u16, status: u16 },
    /// Neither: a column count, a column definition, a row, or the
    /// plugin's own packet, taken as it came.
    Data(Vec<u8>),
}

/// A reply as what it holds.
pub enum ReplyView {
    Okay { affected_rows: u64, last_insert_id: u64, status: u16, warnings: u16 },
    Error { code: u16, state: Seq<char>, message: Seq<char> },
    Eof { warnings: u16, status: u16 },
    Data(Seq<u8>),
}

impl View for Reply {
    type V = ReplyView;

    open spec fn view(&self) -> ReplyView {
        match self {
            Reply::Okay { affected_rows, last_insert_id, status, warnings } => ReplyView::Okay {
                affected_rows: *affected_rows,
                last_insert_id: *last_insert_id,
                status: *status,
                warnings: *warnings,
            },
            Reply::Error { code, state, message } => ReplyView::Error {
                code: *code,
                state: state@,
                message: message@,
            },
            Reply::Eof { warnings, status } => ReplyView::Eof {
                warnings: *warnings,
                status: *status,
            },
            Reply::Data(bytes) => ReplyView::Data(bytes@),
        }
    }
}

/// A state as the five bytes that are sent of it: cut where it is longer,
/// filled with `0` where it is shorter.
pub open spec fn state_bytes(state: Seq<char>) -> Seq<u8> {
    let bytes = encode_utf8(state);
    Seq::new(
        5,
        |i: int|
            if i < bytes.len() {
                bytes[i]
            } else {
                48u8
            },
    )
}

/// A state that five bytes do not cut inside a character.
pub open spec fn whole_state(state: Seq<char>) -> bool {
    encode_utf8(state).len() <= 5 || is_char_boundary(encode_utf8(state), 5)
}

/// A reply that can be sent.
pub open spec fn sendable(reply: ReplyView) -> bool {
    match reply {
        ReplyView::Error { state, .. } => whole_state(state),
        _ => true,
    }
}

/// A reply as a payload.
pub open spec fn reply_bytes(reply: ReplyView) -> Seq<u8> {
    match reply {
        ReplyView::Okay { affected_rows, last_insert_id, status, warnings } => seq![OK_HEADER] + (
        lenenc(affected_rows) + (lenenc(last_insert_id) + (le_bytes(status as nat, 2) + le_bytes(
            warnings as nat,
            2,
        )))),
        ReplyView::Error { code, state, message } => seq![ERR_HEADER] + (le_bytes(code as nat, 2)
            + (seq![STATE_MARKER] + (state_bytes(state) + encode_utf8(message)))),
        ReplyView::Eof { warnings, status } => seq![EOF_HEADER] + (le_bytes(warnings as nat, 2)
            + le_bytes(status as nat, 2)),
        ReplyView::Data(bytes) => bytes,
    }
}

/// The OK packet that `bytes` carry after its header.
pub open spec fn ok_of(bytes: Seq<u8>) -> Result<ReplyView, Fault> {
    match read_lenenc(bytes) {
        (Err(fault), _) => Err(fault),
        (Ok(affected_rows), bytes) => match read_lenenc(bytes) {
            (Err(fault), _) => Err(fault),
            (Ok(last_insert_id), bytes) => match read_int16(bytes) {
                (Err(fault), _) => Err(fault),
                (Ok(status), bytes) => match read_int16(bytes) {
                    (Err(fault), _) => Err(fault),
                    (Ok(warnings), _) => Ok(
                        ReplyView::Okay { affected_rows, last_insert_id, status, warnings },
                    ),
                },
            },
        },
    }
}

/// The ERR packet that `bytes` carry after its header: a code, five bytes of
/// state where the marker opens them, and the message.
pub open spec fn err_of(bytes: Seq<u8>) -> Result<ReplyView, Fault> {
    match read_int16(bytes) {
        (Err(fault), _) => Err(fault),
        (Ok(code), bytes) => if bytes.len() > 0 && bytes[0] == STATE_MARKER {
            match read_bytes(bytes.skip(1), 5) {
                (Err(fault), _) => Err(fault),
                (Ok(state), bytes) => Ok(
                    ReplyView::Error {
                        code,
                        state: lossy_text(state),
                        message: lossy_text(bytes),
                    },
                ),
            }
        } else {
            Ok(ReplyView::Error { code, state: seq![], message: lossy_text(bytes) })
        },
    }
}

/// The EOF packet that `bytes` carry after its header.
pub open spec fn eof_of(bytes: Seq<u8>) -> Result<ReplyView, Fault> {
    match read_int16(bytes) {
        (Err(fault), _) => Err(fault),
        (Ok(warnings), bytes) => match read_int16(bytes) {
            (Err(fault), _) => Err(fault),
            (Ok(status), _) => Ok(ReplyView::Eof { warnings, status }),
        },
    }
}

/// The reply that a payload carries.
pub open spec fn reply_of(payload: Seq<u8>) -> Result<ReplyView, Fault> {
    if payload.len() == 0 {
        Err(lasting("an empty reply"@))
    } else if payload[0] == OK_HEADER {
        ok_of(payload.skip(1))
    } else if payload[0] == ERR_HEADER {
        err_of(payload.skip(1))
    } else if payload[0] == EOF_HEADER && payload.len() < 9 {
        eof_of(payload.skip(1))
    } else {
        Ok(ReplyView::Data(payload))
    }
}

/// The reply that a payload carries inside a result set, where none is OK.
pub open spec fn reply_in_result_set(payload: Seq<u8>) -> Result<ReplyView, Fault> {
    if payload.len() > 0 && payload[0] == OK_HEADER {
        Ok(ReplyView::Data(payload))
    } else {
        reply_of(payload)
    }
}

/// `reply` as a payload; `Data` is its bytes.
#[must_use]
pub fn encode_reply(reply: &Reply) -> (payload: Vec<u8>)
    requires
        sendable(reply@),
    ensures
        payload@ == reply_bytes(reply@),
{
    let mut out: Vec<u8> = Vec::new();
    match reply {
        Reply::Okay { affected_rows, last_insert_id, status, warnings } => {
            out.push(OK_HEADER);
            lenenc_int(&mut out, *affected_rows);
            lenenc_int(&mut out, *last_insert_id);
            append_le(&mut out, *status as u64, 2);
            append_le(&mut out, *warnings as u64, 2);
        },
        Reply::Error { code, state, message } => {
            out.push(ERR_HEADER);
            append_le(&mut out, *code as u64, 2);
            out.push(STATE_MARKER);
            append_state(&mut out, state.as_str());
            append(&mut out, message.as_str().as_bytes());
        },
        Reply::Eof { warnings, status } => {
            out.push(EOF_HEADER);
            append_le(&mut out, *warnings as u64, 2);
            append_le(&mut out, *status as u64, 2);
        },
        Reply::Data(bytes) => append(&mut out, bytes.as_slice()),
    }
    assert(out@ =~= reply_bytes(reply@));
    out
}

/// Adds the five bytes of `state` to the end of `out`.
fn append_state(out: &mut Vec<u8>, state: &str)
    ensures
        final(out)@ == old(out)@ + state_bytes(state@),
{
    let ghost before = out@;
    let bytes = state.as_bytes();
    let mut at: usize = 0;
    while at < 5
        invariant
            at <= 5,
            bytes@ == encode_utf8(state@),
            out@ == before + state_bytes(state@).take(at as int),
        decreases 5 - at,
    {
        out.push(if at < bytes.len() { bytes[at] } else { 48 });
        at += 1;
        assert(out@ =~= before + state_bytes(state@).take(at as int));
    }
    assert(state_bytes(state@).take(5) =~= state_bytes(state@));
}

/// The reply a payload carries.
///
/// # Errors
/// An OK, ERR or EOF packet that breaks off, or an empty payload.
pub fn decode_reply(payload: &[u8]) -> (result: Result<Reply, TransportError>)
    ensures
        agrees(result, reply_of(payload@)),
{
    if payload.len() == 0 {
        return Err(protocol_error("an empty reply"));
    }
    let opening: u8 = payload[0];
    let after = slice_subrange(payload, 1, payload.len());
    assert(after@ =~= payload@.skip(1));
    let mut cursor = Cursor::new(after);
    if opening == OK_HEADER {
        let affected_rows: u64 = cursor.lenenc_int()?;
        let last_insert_id: u64 = cursor.lenenc_int()?;
        let status: u16 = cursor.int16()?;
        let warnings: u16 = cursor.int16()?;
        Ok(Reply::Okay { affected_rows, last_insert_id, status, warnings })
    } else if opening == ERR_HEADER {
        let code: u16 = cursor.int16()?;
        let state = if cursor.peek() == Some(STATE_MARKER) {
            cursor.skip(1)?;
            from_utf8_lossy(cursor.take(5)?)
        } else {
            String::new()
        };
        let message = from_utf8_lossy(cursor.rest());
        Ok(Reply::Error { code, state, message })
    } else if opening == EOF_HEADER && payload.len() < 9 {
        let warnings: u16 = cursor.int16()?;
        let status: u16 = cursor.int16()?;
        Ok(Reply::Eof { warnings, status })
    } else {
        Ok(Reply::Data(slice_to_vec(payload)))
    }
}

/// The reply a payload carries inside a result set, where a leading
/// `0x00` is a row whose first value is empty, not an OK packet: without
/// `CLIENT_DEPRECATE_EOF` no OK arrives between the column count and the
/// closing EOF.
///
/// # Errors
/// An ERR or EOF packet that breaks off, or an empty payload.
pub fn decode_in_result_set(payload: &[u8]) -> (result: Result<Reply, TransportError>)
    ensures
        agrees(result, reply_in_result_set(payload@)),
{
    if payload.len() > 0 && payload[0] == OK_HEADER {
        Ok(Reply::Data(slice_to_vec(payload)))
    } else {
        decode_reply(payload)
    }
}

// A result set.

/// The count of columns that a payload carries, and nothing else.
pub open spec fn column_count_of(payload: Seq<u8>) -> Result<usize, Fault> {
    match read_lenenc(payload) {
        (Err(fault), _) => Err(fault),
        (Ok(count), rest) => if rest.len() > 0 {
            Err(lasting("a column count with something after it"@))
        } else if count > usize::MAX {
            Err(lasting("more columns than memory"@))
        } else {
            Ok(count as usize)
        },
    }
}

/// A count of columns, as the packet that opens a result set.
#[must_use]
pub fn encode_column_count(count: usize) -> (payload: Vec<u8>)
    ensures
        payload@ == lenenc(count as u64),
{
    let mut out: Vec<u8> = Vec::new();
    lenenc_int(&mut out, count as u64);
    assert(out@ =~= lenenc(count as u64));
    out
}

/// The count a result set opens with.
///
/// # Errors
/// A payload that is not one length-encoded integer.
pub fn decode_column_count(payload: &[u8]) -> (result: Result<usize, TransportError>)
    ensures
        agrees(result, column_count_of(payload@)),
{
    let mut cursor = Cursor::new(payload);
    let count: u64 = cursor.lenenc_int()?;
    if !cursor.is_empty() {
        return Err(protocol_error("a column count with something after it"));
    }
    if count > usize::MAX as u64 {
        return Err(protocol_error("more columns than memory"));
    }
    Ok(count as usize)
}

/// The fields of a definition after its names: the collation, a length
/// without bound, the type, no flags, no decimals, and two bytes that are
/// not used.
pub open spec fn definition_end() -> Seq<u8> {
    lenenc(FIXED_FIELDS) + le_bytes(45, 2) + le_bytes(0xffff_ffff, 4) + seq![VAR_STRING] + le_bytes(
        0,
        2,
    ) + seq![0u8, 0u8, 0u8]
}

/// A column definition: the catalogue, no schema and no tables, and the name
/// twice.
pub open spec fn definition_bytes(name: Seq<char>) -> Seq<u8> {
    lenenc_string(encode_utf8("def"@)) + (lenenc_string(seq![]) + (lenenc_string(seq![]) + (
    lenenc_string(seq![]) + (lenenc_string(encode_utf8(name)) + (lenenc_string(encode_utf8(name))
        + definition_end())))))
}

/// The length-encoded string that comes after `count` others.
pub open spec fn string_after(bytes: Seq<u8>, count: nat) -> Result<Seq<char>, Fault>
    decreases count,
{
    match read_lenenc_str(bytes) {
        (Err(fault), _) => Err(fault),
        (Ok(text), rest) => if count == 0 {
            Ok(text)
        } else {
            string_after(rest, (count - 1) as nat)
        },
    }
}

/// The name of a column, as its definition gives it: the string after the
/// catalogue, the schema and the two names of its table.
pub open spec fn column_name_of(payload: Seq<u8>) -> Result<Seq<char>, Fault> {
    string_after(payload, 4)
}

/// A column definition naming `name`, typed as a string with no table
/// behind it - enough for a reader that takes every value as text.
#[must_use]
pub fn encode_column(name: &str) -> (payload: Vec<u8>)
    ensures
        payload@ == definition_bytes(name@),
{
    let mut out: Vec<u8> = Vec::new();
    lenenc_bytes(&mut out, "def".as_bytes());
    let empty: Vec<u8> = Vec::new();
    assert(empty@ =~= seq![]);
    lenenc_bytes(&mut out, empty.as_slice());
    lenenc_bytes(&mut out, empty.as_slice());
    lenenc_bytes(&mut out, empty.as_slice());
    let mut end: Vec<u8> = Vec::new();
    lenenc_int(&mut end, FIXED_FIELDS);
    append_le(&mut end, 45, 2);
    append_le(&mut end, 0xffff_ffff, 4);
    end.push(VAR_STRING);
    append_le(&mut end, 0, 2);
    end.push(0);
    end.push(0);
    end.push(0);
    assert(end@ =~= definition_end());
    lenenc_bytes(&mut out, name.as_bytes());
    lenenc_bytes(&mut out, name.as_bytes());
    append(&mut out, end.as_slice());
    assert(out@ =~= definition_bytes(name@));
    out
}

/// The name a column definition carries.
///
/// # Errors
/// A definition that breaks off before its name.
pub fn decode_column(payload: &[u8]) -> (result: Result<String, TransportError>)
    ensures
        agrees(result, column_name_of(payload@)),
{
    let mut cursor = Cursor::new(payload);
    let mut left: usize = 4;
    while left > 0
        invariant
            string_after(payload@, 4) == string_after(cursor@, left as nat),
        decreases left,
    {
        cursor.lenenc_str()?;
        left -= 1;
    }
    cursor.lenenc_str()
}

/// One value of a row: its text behind its length, or the mark of a NULL.
pub open spec fn value_bytes(value: Option<Seq<char>>) -> Seq<u8> {
    match value {
        Some(text) => lenenc_string(encode_utf8(text)),
        None => seq![NULL_VALUE],
    }
}

/// A row: its values one after another.
pub open spec fn row_bytes(values: Seq<Option<Seq<char>>>) -> Seq<u8>
    decreases values.len(),
{
    if values.len() == 0 {
        seq![]
    } else {
        value_bytes(values[0]) + row_bytes(values.drop_first())
    }
}

/// The next value of a row.
pub open spec fn read_value(bytes: Seq<u8>) -> Field<Option<Seq<char>>> {
    if bytes.len() > 0 && bytes[0] == NULL_VALUE {
        (Ok(None), bytes.skip(1))
    } else {
        match read_lenenc_str(bytes) {
            (Ok(text), rest) => (Ok(Some(text)), rest),
            (Err(fault), rest) => (Err(fault), rest),
        }
    }
}

/// The `count` values that a row carries.
pub open spec fn row_of(bytes: Seq<u8>, count: nat) -> Result<Seq<Option<Seq<char>>>, Fault>
    decreases count,
{
    if count == 0 {
        Ok(seq![])
    } else {
        match read_value(bytes) {
            (Err(fault), _) => Err(fault),
            (Ok(value), rest) => match row_of(rest, (count - 1) as nat) {
                Err(fault) => Err(fault),
                Ok(values) => Ok(seq![value] + values),
            },
        }
    }
}

/// One row, each value as text or NULL.
#[must_use]
pub fn encode_row(values: &[Option<String>]) -> (payload: Vec<u8>)
    ensures
        payload@ == row_bytes(values.deep_view()),
{
    let mut out: Vec<u8> = Vec::new();
    let mut at: usize = 0;
    let ghost all = values.deep_view();
    assert(all.skip(0) =~= all);
    while at < values.len()
        invariant
            at <= values@.len(),
            all == values.deep_view(),
            row_bytes(all) == out@ + row_bytes(all.skip(at as int)),
        decreases values@.len() - at,
    {
        let ghost before = out@;
        match &values[at] {
            Some(text) => lenenc_bytes(&mut out, text.as_str().as_bytes()),
            None => out.push(NULL_VALUE),
        }
        assert(out@ =~= before + value_bytes(all[at as int]));
        assert(all.skip(at as int).drop_first() =~= all.skip(at + 1));
        at += 1;
        assert(row_bytes(all) =~= out@ + row_bytes(all.skip(at as int)));
    }
    assert(out@ =~= row_bytes(all));
    out
}

/// The `count` values a row carries.
///
/// # Errors
/// A row with fewer values than columns, or one that breaks off.
pub fn decode_row(payload: &[u8], count: usize) -> (result: Result<
    Vec<Option<String>>,
    TransportError,
>)
    ensures
        match (result, row_of(payload@, count as nat)) {
            (Ok(values), Ok(expected)) => values.deep_view() == expected,
            (Err(error), Err(fault)) => error@ == fault,
            _ => false,
        },
{
    let mut cursor = Cursor::new(payload);
    let mut values: Vec<Option<String>> = Vec::new();
    let mut left: usize = count;
    while left > 0
        invariant
            match row_of(cursor@, left as nat) {
                Ok(rest) => row_of(payload@, count as nat) == Ok::<Seq<Option<Seq<char>>>, Fault>(
                    values.deep_view() + rest,
                ),
                Err(fault) => row_of(payload@, count as nat) == Err::<
                    Seq<Option<Seq<char>>>,
                    Fault,
                >(fault),
            },
        decreases left,
    {
        let ghost before = values.deep_view();
        let ghost bytes = cursor@;
        let value: Option<String> = if cursor.peek() == Some(NULL_VALUE) {
            cursor.skip(1)?;
            None
        } else {
            Some(cursor.lenenc_str()?)
        };
        let ghost read = value.deep_view();
        values.push(value);
        left -= 1;
        proof {
            assert(values.deep_view() =~= before.push(read));
            if let Ok(rest) = row_of(cursor@, left as nat) {
                assert(before + (seq![read] + rest) =~= values.deep_view() + rest);
            }
        }
    }
    assert(values.deep_view() + Seq::<Option<Seq<char>>>::empty() =~= values.deep_view());
    Ok(values)
}

// What is written is read back.

/// A reply that its own encoding tells apart from every other: an ERR with
/// a state of five bytes, and data that does not open as another packet.
pub open spec fn distinct(reply: ReplyView) -> bool {
    match reply {
        ReplyView::Error { state, .. } => encode_utf8(state).len() == 5,
        ReplyView::Data(bytes) => bytes.len() > 0 && bytes[0] != OK_HEADER && bytes[0] != ERR_HEADER
            && !(bytes[0] == EOF_HEADER && bytes.len() < 9),
        _ => true,
    }
}

/// An OK packet's fields are read back.
proof fn okay_read_back(affected_rows: u64, last_insert_id: u64, status: u16, warnings: u16)
    ensures
        ({
            let reply = (ReplyView::Okay { affected_rows, last_insert_id, status, warnings });
            reply_of(reply_bytes(reply)) == Ok::<ReplyView, Fault>(reply)
        }),
{
    let end = le_bytes(warnings as nat, 2);
    let tail = le_bytes(status as nat, 2) + end;
    let fields = lenenc(affected_rows) + (lenenc(last_insert_id) + tail);
    lenenc_read_back(affected_rows, lenenc(last_insert_id) + tail);
    lenenc_read_back(last_insert_id, tail);
    int16_read_back(status, end);
    int16_read_back(warnings, seq![]);
    assert(end + seq![] =~= end);
    assert((seq![OK_HEADER] + fields).skip(1) =~= fields);
}

/// An ERR packet's fields are read back.
proof fn error_read_back(code: u16, state: Seq<char>, message: Seq<char>)
    requires
        encode_utf8(state).len() == 5,
    ensures
        ({
            let reply = (ReplyView::Error { code, state, message });
            reply_of(reply_bytes(reply)) == Ok::<ReplyView, Fault>(reply)
        }),
{
    let end = encode_utf8(message);
    let marked = state_bytes(state) + end;
    let fields = le_bytes(code as nat, 2) + (seq![STATE_MARKER] + marked);
    assert(state_bytes(state) =~= encode_utf8(state));
    int16_read_back(code, seq![STATE_MARKER] + marked);
    assert((seq![STATE_MARKER] + marked).skip(1) =~= marked);
    bytes_read_back(state_bytes(state), end);
    lossy_text_of_text(state);
    lossy_text_of_text(message);
    assert((seq![ERR_HEADER] + fields).skip(1) =~= fields);
}

/// An EOF packet's fields are read back, and it stays under nine bytes.
proof fn eof_read_back(warnings: u16, status: u16)
    ensures
        ({
            let reply = (ReplyView::Eof { warnings, status });
            reply_of(reply_bytes(reply)) == Ok::<ReplyView, Fault>(reply)
        }),
{
    let end = le_bytes(status as nat, 2);
    let fields = le_bytes(warnings as nat, 2) + end;
    le_bytes_length(warnings as nat, 2);
    le_bytes_length(status as nat, 2);
    int16_read_back(warnings, end);
    int16_read_back(status, seq![]);
    assert(end + seq![] =~= end);
    assert((seq![EOF_HEADER] + fields).skip(1) =~= fields);
}

/// Every reply that its own encoding tells apart is read back as itself,
/// and inside a result set every one but OK.
pub proof fn reply_read_back(reply: ReplyView)
    requires
        distinct(reply),
    ensures
        reply_of(reply_bytes(reply)) == Ok::<ReplyView, Fault>(reply),
        reply !is Okay ==> reply_in_result_set(reply_bytes(reply)) == Ok::<ReplyView, Fault>(reply),
{
    match reply {
        ReplyView::Okay { affected_rows, last_insert_id, status, warnings } => okay_read_back(
            affected_rows,
            last_insert_id,
            status,
            warnings,
        ),
        ReplyView::Error { code, state, message } => error_read_back(code, state, message),
        ReplyView::Eof { warnings, status } => eof_read_back(warnings, status),
        ReplyView::Data(_) => {},
    }
}

/// A count of columns is read back, whatever it is.
pub proof fn column_count_read_back(count: usize)
    ensures
        column_count_of(lenenc(count as u64)) == Ok::<usize, Fault>(count),
{
    lenenc_read_back(count as u64, seq![]);
    assert(lenenc(count as u64) + seq![] =~= lenenc(count as u64));
}

/// The name of a column is read back from its definition.
pub proof fn definition_read_back(name: Seq<char>)
    requires
        encode_utf8(name).len() <= usize::MAX,
    ensures
        column_name_of(definition_bytes(name)) == Ok::<Seq<char>, Fault>(name),
{
    let empty = Seq::<char>::empty();
    assert(encode_utf8(empty) =~= seq![]);
    let blank = lenenc_string(seq![]);
    let named = lenenc_string(encode_utf8(name)) + (lenenc_string(encode_utf8(name))
        + definition_end());
    assert(encode_utf8("def"@).len() <= usize::MAX) by {
        reveal_strlit("def");
        reveal_with_fuel(encode_utf8, 4);
        assert("def"@.drop_first().drop_first().drop_first() =~= seq![]);
    }
    lenenc_str_read_back("def"@, blank + (blank + (blank + named)));
    lenenc_str_read_back(empty, blank + (blank + named));
    lenenc_str_read_back(empty, blank + named);
    lenenc_str_read_back(empty, named);
    lenenc_str_read_back(name, lenenc_string(encode_utf8(name)) + definition_end());
    reveal_with_fuel(string_after, 5);
}

/// Values short enough to be held in memory.
pub open spec fn held(values: Seq<Option<Seq<char>>>) -> bool {
    forall|i: int|
        0 <= i < values.len() ==> (#[trigger] values[i] matches Some(text) ==> encode_utf8(
            text,
        ).len() <= usize::MAX)
}

/// The values of a row are read back, a NULL as a NULL.
pub proof fn row_read_back(values: Seq<Option<Seq<char>>>)
    requires
        held(values),
    ensures
        row_of(row_bytes(values), values.len()) == Ok::<Seq<Option<Seq<char>>>, Fault>(values),
    decreases values.len(),
{
    if values.len() > 0 {
        let value = values[0];
        let left = values.drop_first();
        let rest = row_bytes(left);
        row_read_back(left);
        assert(seq![value] + left =~= values);
        match value {
            Some(text) => {
                lenenc_str_read_back(text, rest);
                assert(row_bytes(values)[0] == lenenc(encode_utf8(text).len() as u64)[0]);
            },
            None => {
                assert((seq![NULL_VALUE] + rest).skip(1) =~= rest);
            },
        }
    } else {
        assert(values =~= seq![]);
    }
}


} // verus!
