//! What holds of the library as a whole: that what one end writes, the other
//! reads.

pub mod accepted;
pub mod digest;
pub mod exchanges;
pub mod faults;
pub mod fields;
pub mod framing;
pub mod grammar;
pub mod handshakes;
pub mod literals;
pub mod places;
pub mod replies;
pub mod views;

use crate::client::{
    answer_text, greeting_in, login_outcome, login_response, opened, query_step, sql_fault,
    switched, ProgressView, QueryView, ResultSet,
};
use crate::client::{doubled, escaped, escaped_text, quoted_identifier, quoted_literal};
use crate::error::{lasting, Fault};
use crate::handshake::{
    capabilities_taken_up, greeting_bytes, greeting_read_back, response_bytes, response_of,
    response_read_back, scramble_verified, scrambled, switch_read_back, Greeting, Response,
    NATIVE_PASSWORD, NONCE_LENGTH, PROTOCOL_VERSION,
};
use crate::hex::{byte_digits, carried, digit, hex_digits, hex_form, literal_of, textual};
use crate::insert::{
    after_mark, after_word, bracketed_identifier, bracketed_literal, ends_statement, identifier_at,
    insert_of, insert_table, literal_at, unescaped, unquoted,
};
use crate::result::{
    column_count_read_back, definition_bytes, definition_read_back, held, reply_bytes,
    reply_in_result_set, reply_read_back, row_bytes, row_read_back, value_bytes, ReplyView,
    EOF_HEADER,
};
use crate::scan::{after_space, before_is, first_word, is_word};
use crate::session::{
    admitted, answer_of, answer_payloads, definitions, denial, denial_text, end_of_set, framed,
    nonce_seed, okay, origin_of, own_states, printable, query_in, row_payloads, session_greeting,
    verdict_of, AnswerView, EventView, SessionView, VerdictView, SERVER_VERSION,
};
use crate::stream::ArrivedView;
use crate::text::{decimal_text, no_nul};
use crate::wire::{
    announced, command_bytes, command_read_back, ended_string, frame_read_back, joined,
    le_bytes_length, lenenc, next_sequence, opened_by, packets, sequence_after, CommandView,
    MAX_PAYLOAD,
};
use crate::{
    after_scheme, insert_text, place_of, row_streams, segments, split_once, value_literal, Place,
};
use vstd::prelude::*;
use vstd::utf8::{decode_utf8, encode_utf8};

verus! {

// Literals.

/// A string's text is read back up to the quote that closes it.
proof fn escaped_read_back(text: Seq<char>, rest: Seq<char>)
    requires
        rest.len() == 0 || rest[0] != '\'',
    ensures
        unquoted(escaped_text(text) + (seq!['\''] + rest)) == Some((text, rest)),
    decreases text.len(),
{
    let tail = seq!['\''] + rest;
    let all = escaped_text(text) + tail;
    if text.len() == 0 {
        assert(all =~= tail);
        assert(tail.skip(1) =~= rest);
        assert(text =~= seq![]);
    } else {
        let c = text[0];
        let left = text.drop_first();
        let more = escaped_text(left) + tail;
        escaped_read_back(left, rest);
        assert(all =~= escaped(c) + more);
        assert(seq![c] + left =~= text);
        if escaped(c).len() == 2 {
            assert(all.skip(2) =~= more);
            assert(unescaped(escaped(c)[1]) =~= seq![c]);
        } else {
            assert(all.skip(1) =~= more);
        }
    }
}

/// Text comes back from the string literal it was quoted as: the literal is
/// read up to its closing quote, wherever something other than another quote
/// follows.
pub proof fn quoted_literal_read_back(text: Seq<char>, rest: Seq<char>)
    requires
        rest.len() == 0 || rest[0] != '\'',
    ensures
        literal_at(quoted_literal(text) + rest) == Some((encode_utf8(text), rest)),
{
    let all = quoted_literal(text) + rest;
    escaped_read_back(text, rest);
    assert(all.skip(1) =~= escaped_text(text) + (seq!['\''] + rest));
}

/// No digit is a quote.
proof fn digits_without_quote(bytes: Seq<u8>)
    ensures
        forall|i: int| 0 <= i < hex_digits(bytes).len() ==> hex_digits(bytes)[i] != '\'',
    decreases bytes.len(),
{
    if bytes.len() > 0 {
        let first = hex_digits(bytes.drop_last());
        let last = byte_digits(bytes.last());
        digits_without_quote(bytes.drop_last());
        assert forall|i: int| 0 <= i < hex_digits(bytes).len() implies hex_digits(bytes)[i]
            != '\'' by {
            if i < first.len() {
                assert(hex_digits(bytes)[i] == first[i]);
            } else {
                assert(hex_digits(bytes)[i] == last[i - first.len()]);
                quote_is_no_digit((bytes.last() / 16) as nat);
                quote_is_no_digit((bytes.last() % 16) as nat);
            }
        }
    }
}

/// A quote is no digit.
proof fn quote_is_no_digit(value: nat)
    requires
        value < 16,
    ensures
        digit(value) != '\'',
{
    crate::hex::digit_read_back(value);
}

/// Bytes come back from the hexadecimal literal they were written as,
/// whatever follows it in the statement.
pub proof fn hex_literal_taken(bytes: Seq<u8>, rest: Seq<char>)
    ensures
        literal_at(literal_of(bytes) + rest) == Some((bytes, rest)),
{
    reveal_strlit("X'");
    reveal_strlit("'");
    let digits = hex_digits(bytes);
    let literal = literal_of(bytes);
    let all = literal + rest;
    let end = digits.len() + 3;
    digits_without_quote(bytes);
    assert forall|i: int| 0 <= i < digits.len() implies all.skip(2)[i] != '\'' by {
        assert(all.skip(2)[i] == digits[i]);
    }
    before_is(all.skip(2), '\'', digits.len());
    assert(all.take(end as int) =~= literal);
    assert(all.skip(end as int) =~= rest);
    crate::hex::hex_literal_read_back(bytes);
}

/// The literal that a send writes for bytes is read back as those bytes.
pub proof fn value_literal_read_back(bytes: Seq<u8>, rest: Seq<char>)
    requires
        rest.len() == 0 || rest[0] != '\'',
    ensures
        literal_at(value_literal(bytes) + rest) == Some((bytes, rest)),
{
    if textual(bytes) {
        quoted_literal_read_back(decode_utf8(bytes), rest);
        vstd::utf8::decode_utf8_encode_utf8(bytes);
    } else {
        hex_literal_taken(bytes, rest);
    }
}

/// Text without a backtick is not changed by doubling them.
proof fn doubled_without_backtick(text: Seq<char>)
    requires
        !text.contains('`'),
    ensures
        doubled(text) == text,
    decreases text.len(),
{
    if text.len() > 0 {
        let rest = text.drop_first();
        assert(text.contains(text[0]));
        assert forall|i: int| 0 <= i < rest.len() implies rest[i] != '`' by {
            assert(rest[i] == text[i + 1]);
            assert(text.contains(text[i + 1]));
        }
        doubled_without_backtick(rest);
        assert(seq![text[0]] + rest =~= text);
    } else {
        assert(text =~= seq![]);
    }
}

/// A name without a backtick comes back from the identifier it was quoted
/// as, whatever follows it.
pub proof fn quoted_identifier_read_back(name: Seq<char>, rest: Seq<char>)
    requires
        !name.contains('`'),
    ensures
        identifier_at(quoted_identifier(name) + rest) == Some((name, rest)),
{
    let all = quoted_identifier(name) + rest;
    doubled_without_backtick(name);
    let quoted = all.skip(1);
    assert(quoted =~= name + seq!['`'] + rest);
    assert forall|i: int| 0 <= i < name.len() implies quoted[i] != '`' by {
        assert(name.contains(name[i]));
    }
    before_is(quoted, '`', name.len());
    assert(quoted.take(name.len() as int) =~= name);
    assert(quoted.skip(name.len() as int + 1) =~= rest);
    assert(all[0] == '`');
}

// Statements.

/// Three texts one after another, grouped either way.
proof fn regrouped(a: Seq<char>, b: Seq<char>, c: Seq<char>)
    ensures
        (a + b) + c == a + (b + c),
{
    assert((a + b) + c =~= a + (b + c));
}

/// The column and the value of an insert, from its opening bracket on.
spec fn insert_tail(column: Seq<char>, bytes: Seq<u8>) -> Seq<char> {
    " ("@ + (quoted_identifier(column) + (") VALUES ("@ + (value_literal(bytes) + ")"@)))
}

/// An insert, taken from the front.
proof fn insert_layout(table: Seq<char>, column: Seq<char>, bytes: Seq<u8>)
    ensures
        insert_text(table, column, bytes) == "INSERT INTO "@ + (quoted_identifier(table)
            + insert_tail(column, bytes)),
{
    let i = "INSERT INTO "@;
    let t = quoted_identifier(table);
    let o = " ("@;
    let c = quoted_identifier(column);
    let v = ") VALUES ("@;
    let l = value_literal(bytes);
    let e = ")"@;
    regrouped(i, t, o);
    regrouped(i, t + o, c);
    regrouped(i, t + o + c, v);
    regrouped(i, t + o + c + v, l);
    regrouped(i, t + o + c + v + l, e);
    regrouped(t, o, c);
    regrouped(t, o + c, v);
    regrouped(t, o + c + v, l);
    regrouped(t, o + c + v + l, e);
    regrouped(o, c, v);
    regrouped(o, c + v, l);
    regrouped(o, c + v + l, e);
    regrouped(c, v, l);
    regrouped(c, v + l, e);
    regrouped(v, l, e);
}

/// Text that opens with something other than white space is left as it is.
proof fn no_space(text: Seq<char>)
    requires
        text.len() == 0 || !crate::scan::whitespace(text[0]),
    ensures
        after_space(text) == text,
{
}

/// One space before text that opens with something else is skipped.
proof fn one_space(text: Seq<char>, rest: Seq<char>)
    requires
        text.len() > 0,
        text[0] == ' ',
        rest == text.skip(1),
        rest.len() == 0 || !crate::scan::whitespace(rest[0]),
    ensures
        after_space(text) == rest,
{
    assert(text.drop_first() =~= rest);
    no_space(rest);
}

/// The opening of an insert is read, and its table.
#[verifier::rlimit(40)]
proof fn table_read_back(table: Seq<char>, tail: Seq<char>)
    requires
        !table.contains('`'),
    ensures
        insert_table("INSERT INTO "@ + (quoted_identifier(table) + tail)) == Some((table, tail)),
        is_word(first_word("INSERT INTO "@ + (quoted_identifier(table) + tail)), "INSERT"@),
        !is_word(first_word("INSERT INTO "@ + (quoted_identifier(table) + tail)), "SELECT"@),
{
    reveal_strlit("INSERT INTO ");
    reveal_strlit("INSERT");
    reveal_strlit("INTO");
    reveal_strlit("SELECT");
    let named = quoted_identifier(table) + tail;
    let all = "INSERT INTO "@ + named;
    no_space(all);
    let after_insert = all.skip(6);
    assert(after_word(all, "INSERT"@) == Some(after_insert));
    assert(after_insert.skip(1) =~= all.skip(7));
    one_space(after_insert, all.skip(7));
    let after_into = all.skip(11);
    assert(all.skip(7).skip(4) =~= after_into);
    assert(after_word(after_insert, "INTO"@) == Some(after_into));
    assert(after_into.skip(1) =~= named);
    one_space(after_into, named);
    quoted_identifier_read_back(table, tail);
    no_space(named);
    reveal_with_fuel(crate::scan::before_space, 7);
    assert(first_word(all) =~= "INSERT"@) by {
        assert(all.drop_first().drop_first().drop_first().drop_first().drop_first().drop_first()
            =~= all.skip(6));
    }
    assert(crate::scan::upper("INSERT"@[0]) != "SELECT"@[0]);
}

/// The column and the value of an insert are read.
proof fn tail_read_back(column: Seq<char>, bytes: Seq<u8>)
    requires
        !column.contains('`'),
    ensures
        bracketed_identifier(insert_tail(column, bytes)) == Some(
            (column, " VALUES ("@ + (value_literal(bytes) + ")"@)),
        ),
{
    reveal_strlit(" (");
    reveal_strlit(") VALUES (");
    reveal_strlit(" VALUES (");
    let valued = ") VALUES ("@ + (value_literal(bytes) + ")"@);
    let named = quoted_identifier(column) + valued;
    let all = insert_tail(column, bytes);
    one_space(all, all.skip(1));
    assert(all.skip(1).skip(1) =~= named);
    assert(after_mark(all, '(') == Some(named));
    quoted_identifier_read_back(column, valued);
    no_space(valued);
    assert(valued.skip(1) =~= " VALUES ("@ + (value_literal(bytes) + ")"@));
}

/// The value of an insert is read, and it ends the statement.
proof fn value_read_back(bytes: Seq<u8>)
    ensures
        after_word(" VALUES ("@ + (value_literal(bytes) + ")"@), "VALUES"@) == Some(
            " ("@ + (value_literal(bytes) + ")"@),
        ),
        bracketed_literal(" ("@ + (value_literal(bytes) + ")"@)) == Some(
            (bytes, Seq::<char>::empty()),
        ),
        ends_statement(seq![]),
{
    reveal_strlit(" VALUES (");
    reveal_strlit("VALUES");
    reveal_strlit(" (");
    reveal_strlit(")");
    let literal = value_literal(bytes) + ")"@;
    let all = " VALUES ("@ + literal;
    one_space(all, all.skip(1));
    assert(all.skip(1).skip(6) =~= " ("@ + literal);
    assert(after_word(all, "VALUES"@) == Some(" ("@ + literal));
    let bracketed = " ("@ + literal;
    one_space(bracketed, bracketed.skip(1));
    assert(bracketed.skip(1).skip(1) =~= literal);
    assert(after_mark(bracketed, '(') == Some(literal));
    opens_plainly(bytes);
    no_space(literal);
    value_literal_read_back(bytes, ")"@);
    no_space(")"@);
    assert(")"@.skip(1) =~= seq![]);
    no_space(seq![]);
}

/// A literal does not open with white space.
proof fn opens_plainly(bytes: Seq<u8>)
    ensures
        value_literal(bytes).len() > 0,
        !crate::scan::whitespace(value_literal(bytes)[0]),
{
    reveal_strlit("X'");
    reveal_strlit("'");
    assert(literal_of(bytes)[0] == 'X');
}

/// The statement that a send writes is taken apart again into the table, the
/// column and the bytes, where neither name holds a backtick.
pub proof fn insert_read_back(table: Seq<char>, column: Seq<char>, bytes: Seq<u8>)
    requires
        !table.contains('`'),
        !column.contains('`'),
    ensures
        insert_of(insert_text(table, column, bytes)) == Some((table, column, bytes)),
{
    insert_layout(table, column, bytes);
    table_read_back(table, insert_tail(column, bytes));
    tail_read_back(column, bytes);
    value_read_back(bytes);
}


// A query and its answer.

/// What a client makes of the payloads of an answer, and those that it leaves
/// unread once the answer is complete.
pub open spec fn answered(query: QueryView, payloads: Seq<Seq<u8>>) -> (
    Result<ProgressView, Fault>,
    Seq<Seq<u8>>,
)
    decreases payloads.len(),
{
    if payloads.len() == 0 {
        (Ok(ProgressView::Waiting(query)), payloads)
    } else {
        match query_step(query, Some(payloads[0])) {
            Ok(ProgressView::Waiting(next)) => answered(next, payloads.drop_first()),
            done => (done, payloads.drop_first()),
        }
    }
}

/// A table that a result set can carry: it has columns, each row has a value
/// for each, and every text can be held in memory.
pub open spec fn tabular(columns: Seq<Seq<char>>, rows: Seq<Seq<Option<Seq<char>>>>) -> bool {
    &&& 0 < columns.len() <= usize::MAX
    &&& forall|i: int|
        0 <= i < columns.len() ==> encode_utf8(#[trigger] columns[i]).len() <= usize::MAX
    &&& forall|i: int|
        0 <= i < rows.len() ==> (#[trigger] rows[i]).len() == columns.len() && held(rows[i])
}

/// A packet that the answer goes on after.
proof fn goes_on(query: QueryView, payload: Seq<u8>, next: QueryView, rest: Seq<Seq<u8>>)
    requires
        query_step(query, Some(payload)) == Ok::<ProgressView, Fault>(ProgressView::Waiting(next)),
    ensures
        answered(query, seq![payload] + rest) == answered(next, rest),
{
    assert((seq![payload] + rest).drop_first() =~= rest);
}

/// The count of some columns opens a result set.
proof fn count_opens(count: usize)
    requires
        count > 0,
    ensures
        opened(lenenc(count as u64)) == Ok::<ProgressView, Fault>(
            ProgressView::Waiting(QueryView::Columns { count, columns: seq![] }),
        ),
{
    le_bytes_length(count as nat, 8);
    column_count_read_back(count);
}

/// The definitions of the columns after the first `done` are read.
proof fn columns_received(count: usize, columns: Seq<Seq<char>>, done: nat, rest: Seq<Seq<u8>>)
    requires
        done <= columns.len(),
        columns.len() == count,
        forall|i: int|
            0 <= i < columns.len() ==> encode_utf8(#[trigger] columns[i]).len() <= usize::MAX,
    ensures
        answered(
            QueryView::Columns { count, columns: columns.take(done as int) },
            definitions(columns).skip(done as int) + rest,
        ) == answered(QueryView::Columns { count, columns }, rest),
    decreases columns.len() - done,
{
    let taken = columns.take(done as int);
    let left = definitions(columns).skip(done as int);
    if done < columns.len() {
        let name = columns[done as int];
        let query = QueryView::Columns { count, columns: taken };
        let next = QueryView::Columns { count, columns: taken.push(name) };
        let after = definitions(columns).skip(done as int + 1) + rest;
        assert(taken.push(name) =~= columns.take(done as int + 1));
        assert(left + rest =~= seq![definition_bytes(name)] + after);
        definition_read_back(name);
        goes_on(query, definition_bytes(name), next, after);
        columns_received(count, columns, done + 1, rest);
    } else {
        assert(taken =~= columns);
        assert(left + rest =~= rest);
    }
}

/// A row of one value or more is no other packet of a result set.
proof fn row_is_data(row: Seq<Option<Seq<char>>>)
    requires
        row.len() > 0,
    ensures
        reply_in_result_set(row_bytes(row)) == Ok::<ReplyView, Fault>(
            ReplyView::Data(row_bytes(row)),
        ),
{
    let payload = row_bytes(row);
    let value = value_bytes(row[0]);
    assert(payload[0] == value[0]);
    if let Some(text) = row[0] {
        let length = encode_utf8(text).len() as u64;
        le_bytes_length(length as nat, 8);
        assert(value[0] == lenenc(length)[0]);
    }
}

/// The rows after the first `done` are read.
proof fn rows_received(
    count: usize,
    columns: Seq<Seq<char>>,
    rows: Seq<Seq<Option<Seq<char>>>>,
    done: nat,
    rest: Seq<Seq<u8>>,
)
    requires
        done <= rows.len(),
        columns.len() == count,
        tabular(columns, rows),
    ensures
        answered(
            QueryView::Rows { count, columns, rows: rows.take(done as int) },
            row_payloads(rows).skip(done as int) + rest,
        ) == answered(QueryView::Rows { count, columns, rows }, rest),
    decreases rows.len() - done,
{
    let taken = rows.take(done as int);
    let left = row_payloads(rows).skip(done as int);
    if done < rows.len() {
        let row = rows[done as int];
        let query = QueryView::Rows { count, columns, rows: taken };
        let next = QueryView::Rows { count, columns, rows: taken.push(row) };
        let after = row_payloads(rows).skip(done as int + 1) + rest;
        assert(taken.push(row) =~= rows.take(done as int + 1));
        assert(left + rest =~= seq![row_bytes(row)] + after);
        row_is_data(row);
        row_read_back(row);
        goes_on(query, row_bytes(row), next, after);
        rows_received(count, columns, rows, done + 1, rest);
    } else {
        assert(taken =~= rows);
        assert(left + rest =~= rest);
    }
}

/// The table that a session answers with is the table that the client gets,
/// every column, every row, every NULL, and nothing after it is read.
#[verifier::rlimit(40)]
pub proof fn table_received(
    columns: Seq<Seq<char>>,
    rows: Seq<Seq<Option<Seq<char>>>>,
    more: Seq<Seq<u8>>,
)
    requires
        tabular(columns, rows),
    ensures
        answered(
            QueryView::Opening,
            answer_payloads(AnswerView::Rows { columns, rows }) + more,
        ) == (
            Ok::<ProgressView, Fault>(
                ProgressView::Complete(ResultSet { columns, rows, affected_rows: 0 }),
            ),
            more,
        ),
{
    let count = columns.len() as usize;
    let opening = lenenc(count as u64);
    let end = reply_bytes(end_of_set());
    let after_rows = seq![end] + more;
    let after_columns = seq![end] + (row_payloads(rows) + after_rows);
    let all = answer_payloads(AnswerView::Rows { columns, rows }) + more;
    assert(all =~= seq![opening] + (definitions(columns) + after_columns));
    count_opens(count);
    goes_on(
        QueryView::Opening,
        opening,
        QueryView::Columns { count, columns: seq![] },
        definitions(columns) + after_columns,
    );
    assert(columns.take(0) =~= seq![]);
    assert(definitions(columns).skip(0) =~= definitions(columns));
    columns_received(count, columns, 0, after_columns);
    reply_read_back(end_of_set());
    goes_on(
        QueryView::Columns { count, columns },
        end,
        QueryView::Rows { count, columns, rows: seq![] },
        row_payloads(rows) + after_rows,
    );
    assert(rows.take(0) =~= seq![]);
    assert(row_payloads(rows).skip(0) =~= row_payloads(rows));
    rows_received(count, columns, rows, 0, after_rows);
    assert(after_rows.drop_first() =~= more);
}

/// The count that a session completes a statement with is the count that the
/// client gets.
pub proof fn count_received(affected: u64, more: Seq<Seq<u8>>)
    ensures
        answered(QueryView::Opening, answer_payloads(AnswerView::Complete(affected)) + more) == (
            Ok::<ProgressView, Fault>(
                ProgressView::Complete(
                    ResultSet { columns: seq![], rows: seq![], affected_rows: affected },
                ),
            ),
            more,
        ),
{
    let payload = reply_bytes(okay(affected));
    reply_read_back(okay(affected));
    assert((seq![payload] + more).drop_first() =~= more);
}

/// The error that a session answers with is the error that the client gets,
/// where its state is the five bytes that are sent.
pub proof fn error_received(code: u16, state: Seq<char>, message: Seq<char>, more: Seq<Seq<u8>>)
    requires
        encode_utf8(state).len() == 5,
    ensures
        answered(
            QueryView::Opening,
            answer_payloads(AnswerView::Error { code, state, message }) + more,
        ) == (Err::<ProgressView, Fault>(sql_fault(code, state, message)), more),
{
    let reply = ReplyView::Error { code, state, message };
    reply_read_back(reply);
    assert((seq![reply_bytes(reply)] + more).drop_first() =~= more);
}


/// Payloads that were framed one after another are read one after another:
/// the first comes back with its sequence byte, and the packets of the others
/// are left.
pub proof fn framed_read_back(sequence: u8, payloads: Seq<Seq<u8>>, tail: Seq<u8>)
    requires
        payloads.len() > 0,
        payloads[0].len() <= MAX_PAYLOAD,
    ensures
        joined(framed(sequence, payloads) + tail, None, seq![]) == (
            Ok::<Option<(u8, Seq<u8>)>, Fault>(Some((sequence, payloads[0]))),
            framed(sequence_after(sequence, payloads[0].len()), payloads.drop_first()) + tail,
        ),
{
    let first = packets(sequence, payloads[0]);
    let others = framed(sequence_after(sequence, payloads[0].len()), payloads.drop_first());
    frame_read_back(sequence, payloads[0], others + tail);
    assert(framed(sequence, payloads) + tail =~= first + (others + tail));
}

/// A Stream that a client inserts arrives: the session reads the statement
/// that was sent, reports the bytes with the table and the column in their
/// origin, and completes it with one row, which the client gets.
pub proof fn sent_stream_arrives(
    session: SessionView,
    table: Seq<char>,
    column: Seq<char>,
    bytes: Seq<u8>,
)
    requires
        !table.contains('`'),
        !column.contains('`'),
    ensures
        ({
            let sql = insert_text(table, column, bytes);
            let command = command_bytes(CommandView::Query(sql));
            let arrived = (ArrivedView { origin_uri: origin_of(session, table, column), bytes });
            let one = (ResultSet { columns: seq![], rows: seq![], affected_rows: 1 });
            &&& command.len() <= MAX_PAYLOAD ==> joined(packets(0, command), None, seq![]) == (
                Ok::<Option<(u8, Seq<u8>)>, Fault>(Some((0, command))),
                Seq::<u8>::empty(),
            )
            &&& query_in(Some((0, command))) == Ok::<Option<(u8, Seq<char>)>, Fault>(
                Some((0, sql)),
            )
            &&& answer_of(session, sql, None) == (
                AnswerView::Complete(1),
                EventView::Inserted(arrived),
            )
            &&& answered(QueryView::Opening, answer_payloads(AnswerView::Complete(1))) == (
                Ok::<ProgressView, Fault>(ProgressView::Complete(one)),
                Seq::<Seq<u8>>::empty(),
            )
        }),
{
    let sql = insert_text(table, column, bytes);
    let command = command_bytes(CommandView::Query(sql));
    if command.len() <= MAX_PAYLOAD {
        frame_read_back(0, command, seq![]);
        assert(packets(0, command) + seq![] =~= packets(0, command));
    }
    command_read_back(CommandView::Query(sql));
    insert_layout(table, column, bytes);
    table_read_back(table, insert_tail(column, bytes));
    insert_read_back(table, column, bytes);
    count_received(1, seq![]);
    let payloads = answer_payloads(AnswerView::Complete(1));
    assert(payloads + seq![] =~= payloads);
}

/// A client that quits is seen to have quit.
pub proof fn quit_ends_a_session(seen: u8)
    ensures
        query_in(Some((seen, command_bytes(CommandView::Quit)))) == Ok::<
            Option<(u8, Seq<char>)>,
            Fault,
        >(None),
{
    command_read_back(CommandView::Quit);
}

// The login.

/// The texts of a session's greeting have no NUL.
proof fn own_texts()
    ensures
        no_nul(SERVER_VERSION@),
        no_nul(NATIVE_PASSWORD@),
{
    reveal_strlit("8.4.0-xmip");
    reveal_strlit("mysql_native_password");
}

/// The greeting of a session is the greeting that a client reads, whatever
/// nonce of the right length it has.
pub proof fn greeting_received(connection_id: u32, nonce: Seq<u8>)
    requires
        nonce.len() == NONCE_LENGTH,
    ensures
        greeting_in(Some(greeting_bytes(session_greeting(connection_id, nonce)))) == Ok::<
            Greeting,
            Fault,
        >(session_greeting(connection_id, nonce)),
{
    let greeting = session_greeting(connection_id, nonce);
    own_texts();
    capabilities_taken_up();
    greeting_read_back(greeting);
    assert(greeting_bytes(greeting)[0] == PROTOCOL_VERSION);
}

/// What a client answers a greeting with is what the session reads of it.
proof fn response_received(
    user: Seq<char>,
    password: Seq<char>,
    database: Seq<char>,
    nonce: Seq<u8>,
)
    requires
        no_nul(user),
        no_nul(database),
    ensures
        ({
            let response = login_response(user, password, database, nonce);
            response_of(response_bytes(response)) == Ok::<Response, Fault>(response)
        }),
{
    let response = login_response(user, password, database, nonce);
    own_texts();
    capabilities_taken_up();
    scramble_verified(password, nonce);
    response_read_back(response);
}

/// The login that a session expects is let in: it answers OK, knows the user
/// and the database, and the client is told so.
#[verifier::rlimit(40)]
pub proof fn right_login_accepted(
    user: Seq<char>,
    password: Seq<char>,
    database: Seq<char>,
    nonce: Seq<u8>,
    peer: Seq<char>,
    host: Seq<char>,
)
    requires
        no_nul(user),
        no_nul(database),
    ensures
        ({
            let response = response_bytes(login_response(user, password, database, nonce));
            verdict_of(Some((1, response)), peer, host, nonce, user, password) == (VerdictView {
                reply: Some(packets(2, reply_bytes(okay(0)))),
                outcome: Ok(
                    SessionView { peer, user, database, columns: seq![], rows: seq![] },
                ),
            })
        }),
        login_outcome(Some((2, reply_bytes(okay(0)))), password) == Ok::<Option<Seq<u8>>, Fault>(
            None,
        ),
{
    let payload = response_bytes(login_response(user, password, database, nonce));
    let response = login_response(user, password, database, nonce);
    response_received(user, password, database, nonce);
    verdict_given(1, payload, response, peer, host, nonce, user, password);
    reply_read_back(okay(0));
    exchanges::logins_are_answered_by_their_reply(
        2,
        password,
        reply_bytes(okay(0)),
        okay(0),
    );
}

/// The verdict on a response that was read.
proof fn verdict_given(
    seen: u8,
    payload: Seq<u8>,
    response: Response,
    peer: Seq<char>,
    host: Seq<char>,
    nonce: Seq<u8>,
    user: Seq<char>,
    password: Seq<char>,
)
    requires
        response_of(payload) == Ok::<Response, Fault>(response),
    ensures
        verdict_of(Some((seen, payload)), peer, host, nonce, user, password) == (
        if admitted(response, user, password, nonce) {
            VerdictView {
                reply: Some(packets(next_sequence(seen), reply_bytes(okay(0)))),
                outcome: Ok(
                    SessionView {
                        peer,
                        user: response.user,
                        database: response.database,
                        columns: seq![],
                        rows: seq![],
                    },
                ),
            }
        } else {
            VerdictView {
                reply: Some(packets(next_sequence(seen), reply_bytes(denial(response, host)))),
                outcome: Err(lasting(denial_text(response, host))),
            }
        }),
{
}

/// An error of the session's own kind is told as one that lasts.
proof fn denial_lasts(message: Seq<char>)
    ensures
        sql_fault(1045, "28000"@, message) == lasting(answer_text(1045, "28000"@, message)),
{
    reveal_strlit("28000");
}

/// A login with another user, or a password that is not scrambled to the same
/// bytes, is told to the client as error 1045, which the client takes for an
/// error that lasts; and there is no session.
#[verifier::rlimit(40)]
pub proof fn other_login_refused(
    user: Seq<char>,
    password: Seq<char>,
    database: Seq<char>,
    nonce: Seq<u8>,
    peer: Seq<char>,
    host: Seq<char>,
    expected_user: Seq<char>,
    expected_password: Seq<char>,
)
    requires
        no_nul(user),
        no_nul(database),
        user != expected_user || scrambled(password, nonce) != scrambled(expected_password, nonce),
    ensures
        ({
            let response = login_response(user, password, database, nonce);
            let told = denial_text(response, host);
            let reply = reply_bytes(denial(response, host));
            &&& verdict_of(
                Some((1, response_bytes(response))),
                peer,
                host,
                nonce,
                expected_user,
                expected_password,
            ) == (VerdictView { reply: Some(packets(2, reply)), outcome: Err(lasting(told)) })
            &&& login_outcome(Some((2, reply)), password) == Err::<Option<Seq<u8>>, Fault>(
                lasting(answer_text(1045, "28000"@, told)),
            )
        }),
{
    let response = login_response(user, password, database, nonce);
    let payload = response_bytes(response);
    let reply = denial(response, host);
    response_received(user, password, database, nonce);
    verdict_given(
        1,
        payload,
        response,
        peer,
        host,
        nonce,
        expected_user,
        expected_password,
    );
    own_states();
    reply_read_back(reply);
    exchanges::logins_are_answered_by_their_reply(2, password, reply_bytes(reply), reply);
    denial_lasts(denial_text(response, host));
}

/// A server that asks for another plugin is refused with the plugin's name;
/// one that asks for the native one again is answered with the password
/// scrambled with the new nonce.
pub proof fn switch_answered(
    sequence: u8,
    plugin: Seq<char>,
    nonce: Seq<u8>,
    password: Seq<char>,
)
    requires
        no_nul(plugin),
        encode_utf8(plugin).len() + nonce.len() >= 6,
    ensures
        login_outcome(
            Some((sequence, seq![EOF_HEADER] + ended_string(plugin) + nonce.push(0))),
            password,
        ) == switched(sequence, plugin, nonce, password),
{
    let payload = seq![EOF_HEADER] + ended_string(plugin) + nonce.push(0);
    switch_read_back(EOF_HEADER, plugin, nonce);
    assert(payload[0] == EOF_HEADER);
    assert(payload.len() >= 9);
}

/// A nonce has as many bytes as a greeting carries, all of them printable.
pub proof fn nonce_is_printable(digest: Seq<u8>)
    ensures
        printable(digest).len() == NONCE_LENGTH,
        forall|i: int|
            0 <= i < printable(digest).len() ==> 33 <= #[trigger] printable(digest)[i] <= 126,
{
}


// What a receive takes.

/// A session's table reaches whoever runs a SELECT: the client gets its
/// columns and rows, and each row is one Stream, in order.
pub proof fn table_arrives(
    session: SessionView,
    sql: Seq<char>,
    server: Seq<char>,
    database: Seq<char>,
)
    requires
        is_word(first_word(sql), "SELECT"@),
        tabular(session.columns, session.rows),
    ensures
        ({
            let (answer, event) = answer_of(session, sql, None);
            let (result, left) = answered(QueryView::Opening, answer_payloads(answer));
            let table = (ResultSet {
                columns: session.columns,
                rows: session.rows,
                affected_rows: 0,
            });
            &&& event == EventView::Selected(sql)
            &&& result == Ok::<ProgressView, Fault>(ProgressView::Complete(table))
            &&& left.len() == 0
            &&& row_streams(server, database, table.rows).len() == session.rows.len()
        }),
{
    let answer = AnswerView::Rows { columns: session.columns, rows: session.rows };
    table_received(session.columns, session.rows, seq![]);
    assert(answer_payloads(answer) + seq![] =~= answer_payloads(answer));
}

/// Text that a column holds as it is comes back as its bytes, unless it is in
/// a hex form.
pub proof fn text_column_read_back(bytes: Seq<u8>)
    requires
        textual(bytes),
        hex_form(decode_utf8(bytes)) is None,
    ensures
        carried(decode_utf8(bytes)) == bytes,
{
    vstd::utf8::decode_utf8_encode_utf8(bytes);
}

// Where a send goes.

/// Text is split at the slash that joins it.
pub(crate) proof fn split_joined(first: Seq<char>, rest: Seq<char>)
    requires
        !first.contains('/'),
    ensures
        split_once(first + "/"@ + rest) == Some((first, rest)),
{
    reveal_strlit("/");
    let all = first + "/"@ + rest;
    assert forall|i: int| 0 <= i < first.len() implies all[i] != '/' by {
        assert(first.contains(first[i]));
    }
    before_is(all, '/', first.len());
    assert(all.take(first.len() as int) =~= first);
    assert(all.skip(first.len() as int + 1) =~= rest);
}

/// A path of one part has one segment.
pub(crate) proof fn one_segment(part: Seq<char>)
    requires
        !part.contains('/'),
    ensures
        split_once(part) is None,
        segments(part) == seq![part],
{
    assert forall|i: int| 0 <= i < part.len() implies part[i] != '/' by {
        assert(part.contains(part[i]));
    }
    before_is(part, '/', part.len());
}

/// A path of two parts has two segments.
proof fn two_segments(first: Seq<char>, second: Seq<char>)
    requires
        !first.contains('/'),
        !second.contains('/'),
    ensures
        segments(first + "/"@ + second) == seq![first, second],
{
    split_joined(first, second);
    one_segment(second);
    assert(seq![first] + seq![second] =~= seq![first, second]);
}

/// A path of three parts has three segments.
proof fn three_segments(first: Seq<char>, second: Seq<char>, third: Seq<char>)
    requires
        !first.contains('/'),
        !second.contains('/'),
        !third.contains('/'),
    ensures
        segments(first + "/"@ + (second + "/"@ + third)) == seq![first, second, third],
{
    split_joined(first, second + "/"@ + third);
    two_segments(second, third);
    assert(seq![first] + seq![second, third] =~= seq![first, second, third]);
}

/// A target that names a scheme, a peer, a database, a table and a column is
/// resolved to them, whatever the transport is configured with.
#[verifier::rlimit(40)]
pub proof fn uri_target_resolved(
    scheme: Seq<char>,
    place: Place,
    server: Seq<char>,
    database: Seq<char>,
)
    requires
        scheme == "mysql://"@ || scheme == "mariadb://"@,
        !place.server.contains('/'),
        !place.database.contains('/'),
        !place.table.contains('/'),
        !place.column.contains('/'),
    ensures
        place_of(
            server,
            database,
            scheme + (place.server + "/"@ + (place.database + "/"@ + (place.table + "/"@
                + place.column))),
        ) == Ok::<Place, Fault>(place),
{
    let path = place.database + "/"@ + (place.table + "/"@ + place.column);
    let target = scheme + (place.server + "/"@ + path);
    places::peers_stand_behind_a_scheme_or_have_a_port(
        server,
        scheme,
        place.server,
        path,
        Seq::empty(),
    );
    three_segments(place.database, place.table, place.column);
    places::paths_name_two_or_three(server, database, target, place.server, path);
}

/// A target that names a peer with a port, a database, a table and a column is
/// resolved to them, unless it opens with a scheme.
#[verifier::rlimit(40)]
pub proof fn peer_target_resolved(place: Place, server: Seq<char>, database: Seq<char>)
    requires
        place.server.contains(':'),
        !place.server.contains('/'),
        !place.database.contains('/'),
        !place.table.contains('/'),
        !place.column.contains('/'),
        !"mysql://"@.is_prefix_of(
            place.server + "/"@ + (place.database + "/"@ + (place.table + "/"@ + place.column)),
        ),
        !"mariadb://"@.is_prefix_of(
            place.server + "/"@ + (place.database + "/"@ + (place.table + "/"@ + place.column)),
        ),
    ensures
        place_of(
            server,
            database,
            place.server + "/"@ + (place.database + "/"@ + (place.table + "/"@ + place.column)),
        ) == Ok::<Place, Fault>(place),
{
    let path = place.database + "/"@ + (place.table + "/"@ + place.column);
    split_joined(place.server, path);
    three_segments(place.database, place.table, place.column);
}

/// A target that names a table and a column is resolved to them on the server
/// and the database that the transport is configured with, unless the table
/// reads as a peer with a port.
pub proof fn suffix_target_resolved(
    table: Seq<char>,
    column: Seq<char>,
    server: Seq<char>,
    database: Seq<char>,
)
    requires
        !table.contains(':'),
        !table.contains('/'),
        !column.contains('/'),
    ensures
        place_of(server, database, table + "/"@ + column) == Ok::<Place, Fault>(
            Place { server, database, table, column },
        ),
{
    split_joined(table, column);
    two_segments(table, column);
    no_scheme(table, column);
}

/// A target whose first slash has no colon before it opens with no scheme.
pub(crate) proof fn no_scheme(table: Seq<char>, column: Seq<char>)
    requires
        !table.contains(':'),
    ensures
        after_scheme("mysql://"@, table + "/"@ + column) is None,
        after_scheme("mariadb://"@, table + "/"@ + column) is None,
{
    reveal_strlit("mysql://");
    reveal_strlit("mariadb://");
    reveal_strlit("/");
    let target = table + "/"@ + column;
    assert forall|i: int| 0 <= i < table.len() implies target[i] != ':' by {
        assert(table.contains(table[i]));
    }
    assert(target[table.len() as int] == '/');
    if "mysql://"@.is_prefix_of(target) {
        let opening = target.take(8);
        assert(opening[5] == ':' && opening[0] == 'm' && opening[1] == 'y' && opening[2] == 's'
            && opening[3] == 'q' && opening[4] == 'l');
    }
    if "mariadb://"@.is_prefix_of(target) {
        let opening = target.take(10);
        assert(opening[7] == ':' && opening[0] == 'm' && opening[1] == 'a' && opening[2] == 'r'
            && opening[3] == 'i' && opening[4] == 'a' && opening[5] == 'd' && opening[6] == 'b');
    }
}

// What a nonce is made from.

/// The number that decimal digits write.
spec fn decimal_value(text: Seq<char>) -> int
    decreases text.len(),
{
    if text.len() == 0 {
        0
    } else {
        decimal_value(text.drop_last()) * 10 + (text.last() as u32 - '0' as u32)
    }
}

/// A number is read back from its digits, and none of them is a colon.
proof fn decimal_read_back(number: nat)
    ensures
        decimal_value(decimal_text(number)) == number,
        !decimal_text(number).contains(':'),
    decreases number,
{
    let text = decimal_text(number);
    if number < 10 {
        assert(text.drop_last() =~= seq![]);
        assert(decimal_value(seq![]) == 0);
    } else {
        let before = decimal_text(number / 10);
        decimal_read_back(number / 10);
        assert(text.drop_last() =~= before);
        assert forall|i: int| 0 <= i < text.len() implies text[i] != ':' by {
            if i < before.len() {
                assert(text[i] == before[i]);
                assert(before.contains(before[i]));
            }
        }
    }
}

/// Two texts that go on after a colon are the same where their wholes are and
/// neither has a colon before it.
proof fn same_opening(first: Seq<char>, rest: Seq<char>, other: Seq<char>, other_rest: Seq<char>)
    requires
        first + ":"@ + rest == other + ":"@ + other_rest,
        !first.contains(':'),
        !other.contains(':'),
    ensures
        first == other,
        rest == other_rest,
{
    reveal_strlit(":");
    let all = first + ":"@ + rest;
    assert forall|i: int| 0 <= i < first.len() implies all[i] != ':' by {
        assert(first.contains(first[i]));
    }
    assert forall|i: int| 0 <= i < other.len() implies all[i] != ':' by {
        assert(all[i] == other[i]);
        assert(other.contains(other[i]));
    }
    before_is(all, ':', first.len());
    before_is(all, ':', other.len());
    assert(first =~= all.take(first.len() as int));
    assert(other =~= all.take(first.len() as int));
    assert(rest =~= all.skip(first.len() as int + 1));
    assert(other_rest =~= all.skip(first.len() as int + 1));
}

/// Two texts that end after a colon are the same where their wholes are and
/// neither has a colon after it.
proof fn same_ending(first: Seq<char>, end: Seq<char>, other: Seq<char>, other_end: Seq<char>)
    requires
        first + ":"@ + end == other + ":"@ + other_end,
        !end.contains(':'),
        !other_end.contains(':'),
    ensures
        first == other,
        end == other_end,
{
    reveal_strlit(":");
    let all = first + ":"@ + end;
    let count = first.len() as int;
    let other_count = other.len() as int;
    assert(all.len() == count + 1 + end.len());
    assert((other + ":"@ + other_end).len() == other_count + 1 + other_end.len());
    assert(all[count] == ':');
    assert(all[other_count] == ':');
    if count < other_count {
        assert(all[other_count] == end[other_count - count - 1]);
        assert(end.contains(end[other_count - count - 1]));
    }
    if other_count < count {
        assert((other + ":"@ + other_end)[count] == other_end[count - other_count - 1]);
        assert(other_end.contains(other_end[count - other_count - 1]));
    }
    assert(first =~= all.take(count));
    assert(other =~= all.take(count));
    assert(end =~= all.skip(count + 1));
    assert(other_end =~= all.skip(count + 1));
}

/// No two sessions that differ in the clock, the peer or the counter make
/// their nonces from the same text.
pub proof fn seed_tells_sessions_apart(
    nanos: u128,
    peer: Seq<char>,
    connections: u32,
    other_nanos: u128,
    other_peer: Seq<char>,
    other_connections: u32,
)
    ensures
        nonce_seed(nanos, peer, connections) == nonce_seed(
            other_nanos,
            other_peer,
            other_connections,
        ) ==> nanos == other_nanos && peer == other_peer && connections == other_connections,
{
    let first = decimal_text(nanos as nat);
    let end = decimal_text(connections as nat);
    let other = decimal_text(other_nanos as nat);
    let other_end = decimal_text(other_connections as nat);
    decimal_read_back(nanos as nat);
    decimal_read_back(connections as nat);
    decimal_read_back(other_nanos as nat);
    decimal_read_back(other_connections as nat);
    let seed = nonce_seed(nanos, peer, connections);
    let other_seed = nonce_seed(other_nanos, other_peer, other_connections);
    assert(seed =~= first + ":"@ + (peer + ":"@ + end));
    assert(other_seed =~= other + ":"@ + (other_peer + ":"@ + other_end));
    if seed == other_seed {
        same_opening(first, peer + ":"@ + end, other, other_peer + ":"@ + other_end);
        same_ending(peer, end, other_peer, other_end);
    }
}


// An answer as a stream of bytes.

/// A payload that was read off a stream leaves less of it.
proof fn joined_shortens(stream: Seq<u8>, first: Option<u8>, payload: Seq<u8>)
    ensures
        joined(stream, first, payload).0 matches Ok(Some(_)) ==> joined(
            stream,
            first,
            payload,
        ).1.len() < stream.len(),
    decreases stream.len(),
{
    if stream.len() >= 4 {
        let header = stream.take(4);
        let rest = stream.skip(4);
        if let Ok(length) = announced(payload.len(), header) {
            if rest.len() >= length {
                joined_shortens(
                    rest.skip(length as int),
                    Some(opened_by(first, header)),
                    payload + rest.take(length as int),
                );
            }
        }
    }
}

/// What a client makes of a stream that it reads packet by packet until its
/// query is answered, and what of the stream is left.
pub open spec fn received(query: QueryView, stream: Seq<u8>) -> (
    Result<ProgressView, Fault>,
    Seq<u8>,
)
    decreases stream.len(),
    via received_shortens
{
    match joined(stream, None, seq![]) {
        (Err(fault), rest) => (Err(fault), rest),
        (Ok(None), rest) => (query_step(query, None), rest),
        (Ok(Some((_, payload))), rest) => match query_step(query, Some(payload)) {
            Ok(ProgressView::Waiting(next)) => received(next, rest),
            done => (done, rest),
        },
    }
}

#[via_fn]
proof fn received_shortens(query: QueryView, stream: Seq<u8>) {
    joined_shortens(stream, None, seq![]);
}

/// Payloads that a stream can carry.
pub open spec fn carriable(payloads: Seq<Seq<u8>>) -> bool {
    forall|i: int| 0 <= i < payloads.len() ==> (#[trigger] payloads[i]).len() <= MAX_PAYLOAD
}

/// A client that is answered with payloads framed one after another reads of
/// them what they come to, and leaves what follows: the result of the answer
/// is the result of its stream of bytes.
pub proof fn answer_received(
    query: QueryView,
    sequence: u8,
    payloads: Seq<Seq<u8>>,
    tail: Seq<u8>,
)
    requires
        carriable(payloads),
        answered(query, payloads) matches (result, left) && left.len() == 0 && !(result matches Ok(
            ProgressView::Waiting(_),
        )),
    ensures
        received(query, framed(sequence, payloads) + tail) == (answered(query, payloads).0, tail),
    decreases payloads.len(),
{
    let rest = payloads.drop_first();
    let next_sequence = sequence_after(sequence, payloads[0].len());
    let others = framed(next_sequence, rest) + tail;
    framed_read_back(sequence, payloads, tail);
    match query_step(query, Some(payloads[0])) {
        Ok(ProgressView::Waiting(next)) => {
            assert forall|i: int| 0 <= i < rest.len() implies (#[trigger] rest[i]).len()
                <= MAX_PAYLOAD by {
                assert(rest[i] == payloads[i + 1]);
            }
            answer_received(next, next_sequence, rest, tail);
        },
        _ => {
            assert(rest.len() == 0);
            assert(others =~= tail);
        },
    }
}


} // verus!
