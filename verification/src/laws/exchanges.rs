//! What holds of a login, a query and an answer, whoever is at the other end.

use crate::client::{
    awaited, greeting_in, listed, login_outcome, login_request, query_step, refusal, sql_fault,
    switched, ProgressView, QueryView, ResultSet,
};
use crate::error::{lasting, passing, Fault};
use crate::handshake::{
    greeting_bytes, greeting_of, response_bytes, response_of, scrambled, switch_of, Greeting,
    Response,
};
use crate::insert::insert_of;
use crate::laws::framing::short_payload_is_one_packet;
use crate::laws::grammar::{blank, first_words_end_at_white_space, spelled};
use crate::laws::replies::error_is_read_field_by_field;
use crate::result::{
    column_count_of, column_name_of, reply_bytes, reply_in_result_set, reply_of, row_bytes, row_of,
    ReplyView,
};
use crate::scan::whitespace;
use crate::session::{
    answer_bytes, answer_of, answer_payloads, framed, greet_bytes, nonce_of, query_in,
    session_greeting, verdict_of, AnswerView, EventView, SessionView,
};
use crate::sha1::digest_of;
use crate::stream::ArrivedView;
use crate::text::{decimal_text, lossy_text};
use crate::wire::{frame_read_back, joined, lenenc, next_sequence, packets};
use vstd::prelude::*;
use vstd::utf8::encode_utf8;

verus! {

// Errors.

/// A fault lasts or passes as it is called, and says what it is told.
pub proof fn faults_say_what_they_are_told(message: Seq<char>)
    ensures
        lasting(message).message == message && !lasting(message).retryable,
        passing(message).message == message && passing(message).retryable,
{
}

/// An error that a server answers says its code, its state and its message,
/// and may pass where the code is one of six or the state is of one of two
/// classes; any other lasts.
pub proof fn server_errors_say_all_and_may_pass(
    code: u16,
    state: Seq<char>,
    message: Seq<char>,
)
    ensures
        sql_fault(code, state, message).message == "the server answered "@ + decimal_text(
            code as nat,
        ) + " ("@ + state + "): "@ + message,
        sql_fault(code, state, message).retryable <==> code == 1040 || code == 1053 || code == 1077
            || code == 1205 || code == 1213 || code == 1317 || state.len() >= 2 && (state.take(2)
            == seq!['0', '8'] || state.take(2) == seq!['4', '0']),
        refusal(ReplyView::Error { code, state, message }) == sql_fault(code, state, message),
{
    if state.len() >= 2 {
        let class = state.take(2);
        assert(class =~= seq![state[0], state[1]]);
        assert(class == seq!['0', '8'] ==> class[0] == '0' && class[1] == '8');
        assert(class == seq!['4', '0'] ==> class[0] == '4' && class[1] == '0');
        assert(state[0] == '0' && state[1] == '8' ==> class =~= seq!['0', '8']);
        assert(state[0] == '4' && state[1] == '0' ==> class =~= seq!['4', '0']);
    }
}

/// A reply that is no error is written out where one was expected, and that
/// lasts.
pub proof fn unexpected_replies_are_written_out(
    affected_rows: u64,
    last_insert_id: u64,
    status: u16,
    warnings: u16,
    bytes: Seq<u8>,
    byte: u8,
)
    ensures
        refusal(
            ReplyView::Okay { affected_rows, last_insert_id, status, warnings },
        ).message == "Ok { affected_rows: "@ + decimal_text(affected_rows as nat)
            + ", last_insert_id: "@ + decimal_text(last_insert_id as nat) + ", status: "@
            + decimal_text(status as nat) + ", warnings: "@ + decimal_text(warnings as nat) + " }"@
            + " where an error was expected"@,
        refusal(ReplyView::Eof { warnings, status }).message == "Eof { warnings: "@ + decimal_text(
            warnings as nat,
        ) + ", status: "@ + decimal_text(status as nat) + " }"@ + " where an error was expected"@,
        refusal(ReplyView::Data(bytes)).message == "Data(["@ + listed(bytes) + "])"@
            + " where an error was expected"@,
        !refusal(ReplyView::Data(bytes)).retryable,
        !refusal(ReplyView::Eof { warnings, status }).retryable,
        !refusal(
            ReplyView::Okay { affected_rows, last_insert_id, status, warnings },
        ).retryable,
        listed(seq![]) == Seq::<char>::empty(),
        listed(seq![byte]) == decimal_text(byte as nat),
        bytes.len() > 0 ==> listed(bytes.push(byte)) == listed(bytes) + ", "@ + decimal_text(
            byte as nat,
        ),
{
    if bytes.len() > 0 {
        assert(bytes.push(byte).drop_last() =~= bytes);
    }
}

// The login.

/// A server that opens with nothing, with an error or without protocol 4.1 is
/// not logged in to; any other greeting is answered.
pub proof fn greetings_are_answered_or_refused(
    c0: u8,
    c1: u8,
    state: Seq<u8>,
    message: Seq<u8>,
    refused: Seq<u8>,
    payload: Seq<u8>,
)
    requires
        state.len() == 5,
        refused.len() > 0 && refused[0] == 0xff,
        payload.len() == 0 || payload[0] != 0xff,
    ensures
        match reply_of(refused) {
            Ok(reply) => greeting_in(Some(refused)) == Err::<Greeting, Fault>(refusal(reply)),
            Err(fault) => greeting_in(Some(refused)) == Err::<Greeting, Fault>(fault),
        },
        greeting_in(None) matches Err(fault) && !fault.retryable,
        greeting_in(
            Some(seq![0xffu8] + (seq![c0, c1] + (seq![0x23u8] + (state + message)))),
        ) == Err::<Greeting, Fault>(
            sql_fault((c0 + c1 * 0x100) as u16, lossy_text(state), lossy_text(message)),
        ),
        match greeting_of(payload) {
            Ok(greeting) => if greeting.capabilities & 0x200 != 0 {
                greeting_in(Some(payload)) == Ok::<Greeting, Fault>(greeting)
            } else {
                greeting_in(Some(payload)) matches Err(fault) && !fault.retryable
            },
            Err(fault) => greeting_in(Some(payload)) == Err::<Greeting, Fault>(fault),
        },
{
    error_is_read_field_by_field(c0, c1, state, message, seq![], seq![], seq![]);
}

/// A greeting is answered under sequence one with the user, the password
/// scrambled with the greeting's nonce, the database and the native plugin.
pub proof fn greetings_are_answered_with_the_login(
    user: Seq<char>,
    password: Seq<char>,
    database: Seq<char>,
    greeting: Greeting,
)
    ensures
        ({
            let response = (Response {
                capabilities: 0x8_8208,
                user,
                auth_response: scrambled(password, greeting.nonce),
                database,
                plugin: "mysql_native_password"@,
            });
            &&& login_request(user, password, database, greeting) == packets(
                1,
                response_bytes(response),
            )
            &&& response_bytes(response).len() < 64 * 1024 * 1024 ==> joined(
                login_request(user, password, database, greeting),
                None,
                seq![],
            ) == (
                Ok::<Option<(u8, Seq<u8>)>, Fault>(Some((1u8, response_bytes(response)))),
                Seq::<u8>::empty(),
            )
        }),
{
    crate::laws::handshakes::four_capabilities_are_taken_up();
    let response = Response {
        capabilities: 0x8_8208,
        user,
        auth_response: scrambled(password, greeting.nonce),
        database,
        plugin: "mysql_native_password"@,
    };
    if response_bytes(response).len() < 64 * 1024 * 1024 {
        let request = login_request(user, password, database, greeting);
        frame_read_back(1, response_bytes(response), seq![]);
        assert(request + seq![] =~= request);
    }
}

/// What a server says to a login: whichever OK lets the client in, an error is
/// that error, a request for another plugin is answered as such, and whatever
/// else the native password cannot answer is refused for good.
#[verifier::rlimit(40)]
pub proof fn logins_are_answered_by_their_reply(
    sequence: u8,
    password: Seq<char>,
    payload: Seq<u8>,
    reply: ReplyView,
)
    ensures
        login_outcome(None, password) matches Err(fault) && !fault.retryable,
        reply_of(payload) matches Err(fault) ==> login_outcome(
            Some((sequence, payload)),
            password,
        ) == Err::<Option<Seq<u8>>, Fault>(fault),
        reply_of(payload) == Ok::<ReplyView, Fault>(reply) ==> ({
            let outcome = login_outcome(Some((sequence, payload)), password);
            &&& reply is Okay ==> outcome == Ok::<Option<Seq<u8>>, Fault>(None)
            &&& reply matches ReplyView::Error { code, state, message } ==> outcome == Err::<
                Option<Seq<u8>>,
                Fault,
            >(sql_fault(code, state, message))
            &&& reply is Eof ==> (outcome matches Err(fault) && !fault.retryable)
            &&& reply is Data && payload[0] != 0xfe ==> (outcome matches Err(fault)
                && !fault.retryable)
            &&& reply is Data && payload[0] == 0xfe ==> (match switch_of(payload) {
                Ok((plugin, nonce)) => outcome == switched(sequence, plugin, nonce, password),
                Err(fault) => outcome == Err::<Option<Seq<u8>>, Fault>(fault),
            })
        }),
{
}

/// A switch to the native plugin is answered with the password scrambled with
/// the new nonce, in the packet after the one that asked; a switch to any
/// other is refused for good, by its name.
pub proof fn only_the_native_plugin_is_switched_to(
    sequence: u8,
    plugin: Seq<char>,
    nonce: Seq<u8>,
    password: Seq<char>,
)
    ensures
        ({
            let answer = scrambled(password, nonce);
            switched(sequence, "mysql_native_password"@, nonce, password) == Ok::<
                Option<Seq<u8>>,
                Fault,
            >(
                Some(
                    seq![answer.len() as u8, 0u8, 0u8, ((sequence + 1) % 256) as u8] + answer,
                ),
            )
        }),
        plugin != "mysql_native_password"@ ==> switched(sequence, plugin, nonce, password) == Err::<
            Option<Seq<u8>>,
            Fault,
        >(
            (Fault {
                message: "the server asks for "@ + plugin
                    + ", and this crate speaks mysql_native_password only"@,
                retryable: false,
            }),
        ),
{
    let answer = scrambled(password, nonce);
    crate::handshake::scramble_verified(password, nonce);
    short_payload_is_one_packet(((sequence + 1) % 256) as u8, answer);
    assert(next_sequence(sequence) == (sequence + 1) % 256);
}

// A query.

/// The first packet of an answer: an OK is the count of a statement without
/// rows, an error is that error, an EOF is out of place, and a count opens as
/// many columns, none of which has come.
pub proof fn answers_open_with_a_count(payload: Seq<u8>, reply: ReplyView)
    ensures
        reply_of(payload) matches Err(fault) ==> query_step(QueryView::Opening, Some(payload))
            == Err::<ProgressView, Fault>(fault),
        reply_of(payload) == Ok::<ReplyView, Fault>(reply) ==> ({
            let step = query_step(QueryView::Opening, Some(payload));
            &&& reply matches ReplyView::Okay { affected_rows, .. } ==> step == Ok::<
                ProgressView,
                Fault,
            >(
                ProgressView::Complete(ResultSet { columns: seq![], rows: seq![], affected_rows }),
            )
            &&& reply matches ReplyView::Error { code, state, message } ==> step == Err::<
                ProgressView,
                Fault,
            >(sql_fault(code, state, message))
            &&& reply is Eof ==> (step matches Err(fault) && !fault.retryable)
            &&& reply matches ReplyView::Data(bytes) ==> (match column_count_of(bytes) {
                Ok(count) => step == Ok::<ProgressView, Fault>(
                    ProgressView::Waiting(QueryView::Columns { count, columns: seq![] }),
                ),
                Err(fault) => step == Err::<ProgressView, Fault>(fault),
            })
        }),
{
}

/// While columns are to come, each definition adds its name behind the
/// others; once all have come, an EOF ends them, an error is that error, and
/// anything else is refused for good.
pub proof fn columns_are_gathered_in_order(
    count: usize,
    columns: Seq<Seq<char>>,
    payload: Seq<u8>,
    reply: ReplyView,
)
    ensures
        ({
            let step = query_step(QueryView::Columns { count, columns }, Some(payload));
            &&& columns.len() < count ==> (match column_name_of(payload) {
                Ok(name) => step == Ok::<ProgressView, Fault>(
                    ProgressView::Waiting(
                        QueryView::Columns { count, columns: columns + seq![name] },
                    ),
                ),
                Err(fault) => step == Err::<ProgressView, Fault>(fault),
            })
            &&& columns.len() >= count ==> (reply_in_result_set(payload) matches Err(fault) ==> step
                == Err::<ProgressView, Fault>(fault))
            &&& columns.len() >= count && reply_in_result_set(payload) == Ok::<ReplyView, Fault>(
                reply,
            ) ==> {
                &&& reply is Eof ==> step == Ok::<ProgressView, Fault>(
                    ProgressView::Waiting(QueryView::Rows { count, columns, rows: seq![] }),
                )
                &&& reply matches ReplyView::Error { code, state, message } ==> step == Err::<
                    ProgressView,
                    Fault,
                >(sql_fault(code, state, message))
                &&& reply is Data || reply is Okay ==> (step matches Err(fault)
                    && !fault.retryable)
            }
        }),
{
    if let Ok(name) = column_name_of(payload) {
        assert(columns.push(name) =~= columns + seq![name]);
    }
}

/// Each row adds its values behind the other rows, an EOF completes the
/// result with the columns and rows gathered and no count, and an error is
/// that error.
pub proof fn rows_are_gathered_in_order(
    count: usize,
    columns: Seq<Seq<char>>,
    rows: Seq<Seq<Option<Seq<char>>>>,
    payload: Seq<u8>,
    reply: ReplyView,
)
    ensures
        reply_in_result_set(payload) matches Err(fault) ==> query_step(
            QueryView::Rows { count, columns, rows },
            Some(payload),
        ) == Err::<ProgressView, Fault>(fault),
        reply_in_result_set(payload) == Ok::<ReplyView, Fault>(reply) ==> ({
            let step = query_step(QueryView::Rows { count, columns, rows }, Some(payload));
            &&& reply is Eof ==> step == Ok::<ProgressView, Fault>(
                ProgressView::Complete(ResultSet { columns, rows, affected_rows: 0 }),
            )
            &&& reply matches ReplyView::Error { code, state, message } ==> step == Err::<
                ProgressView,
                Fault,
            >(sql_fault(code, state, message))
            &&& reply matches ReplyView::Data(bytes) ==> (match row_of(bytes, count as nat) {
                Ok(row) => step == Ok::<ProgressView, Fault>(
                    ProgressView::Waiting(
                        QueryView::Rows { count, columns, rows: rows + seq![row] },
                    ),
                ),
                Err(fault) => step == Err::<ProgressView, Fault>(fault),
            })
        }),
{
    if let ReplyView::Data(bytes) = reply {
        if let Ok(row) = row_of(bytes, count as nat) {
            assert(rows.push(row) =~= rows + seq![row]);
        }
    }
}

/// A server that closes in the middle of an answer is told by what was waited
/// for, and that lasts.
pub proof fn closing_in_the_middle_is_an_error(query: QueryView)
    ensures
        query_step(query, None) == Err::<ProgressView, Fault>(
            (Fault {
                message: "the server closed before "@ + awaited(query),
                retryable: false,
            }),
        ),
        awaited(QueryView::Opening) == "the query's answer"@,
        query matches QueryView::Rows { .. } ==> awaited(query) == "a row"@,
        query matches QueryView::Columns { count, columns } ==> awaited(query) == (
        if columns.len() < count {
            "a column definition"@
        } else {
            "the end of the columns"@
        }),
{
}

// The far end.

/// What was decided for a query is its answer, whatever kind of answer it is
/// and whatever the session holds, and the event is the statement.
pub proof fn decided_answers_are_given_as_they_are(
    session: SessionView,
    sql: Seq<char>,
    columns: Seq<Seq<char>>,
    rows: Seq<Seq<Option<Seq<char>>>>,
    affected: u64,
    code: u16,
    state: Seq<char>,
    message: Seq<char>,
)
    ensures
        answer_of(session, sql, Some(AnswerView::Rows { columns, rows })) == (
            AnswerView::Rows { columns, rows },
            EventView::Executed(sql),
        ),
        answer_of(session, sql, Some(AnswerView::Complete(affected))) == (
            AnswerView::Complete(affected),
            EventView::Executed(sql),
        ),
        answer_of(session, sql, Some(AnswerView::Error { code, state, message })) == (
            AnswerView::Error { code, state, message },
            EventView::Executed(sql),
        ),
{
}

/// On its own a session answers by the first word, in either case: a SELECT
/// with its table, an INSERT of one column with one row and the Stream, any
/// other INSERT with error 1064, and anything else with no row.
pub proof fn sessions_answer_by_the_first_word(
    session: SessionView,
    space: Seq<char>,
    word: Seq<char>,
    rest: Seq<char>,
)
    requires
        blank(space),
        forall|i: int| 0 <= i < word.len() ==> !whitespace(#[trigger] word[i]),
        word.len() > 0 || rest.len() == 0,
        rest.len() == 0 || whitespace(rest[0]),
    ensures
        ({
            let sql = space + (word + rest);
            let (answer, event) = answer_of(session, sql, None);
            if spelled(word, seq!['S', 'E', 'L', 'E', 'C', 'T']) {
                &&& answer == (AnswerView::Rows { columns: session.columns, rows: session.rows })
                &&& event == EventView::Selected(sql)
            } else if spelled(word, seq!['I', 'N', 'S', 'E', 'R', 'T']) {
                match insert_of(sql) {
                    Some((table, column, value)) => {
                        &&& answer == AnswerView::Complete(1)
                        &&& event == EventView::Inserted(
                            ArrivedView {
                                origin_uri: "mysql://"@ + session.peer + "/"@ + session.database
                                    + "/"@ + table + "/"@ + column,
                                bytes: value,
                            },
                        )
                    },
                    None => {
                        &&& answer matches AnswerView::Error { code, state, .. } && code == 1064
                            && state == "42000"@
                        &&& event == EventView::Executed(sql)
                    },
                }
            } else {
                &&& answer == AnswerView::Complete(0)
                &&& event == EventView::Executed(sql)
            }
        }),
{
    reveal_strlit("SELECT");
    reveal_strlit("INSERT");
    assert("SELECT"@ =~= seq!['S', 'E', 'L', 'E', 'C', 'T']);
    assert("INSERT"@ =~= seq!['I', 'N', 'S', 'E', 'R', 'T']);
    first_words_end_at_white_space(space, word, rest, "SELECT"@);
    first_words_end_at_white_space(space, word, rest, "INSERT"@);
}

/// What a packet asks a session: a query its text, under its sequence byte;
/// nothing where the client closed or quit; and any other command is refused.
pub proof fn packets_ask_a_query_or_nothing(seen: u8, rest: Seq<u8>, opening: u8)
    requires
        opening != 1 && opening != 3,
    ensures
        query_in(None) == Ok::<Option<(u8, Seq<char>)>, Fault>(None),
        query_in(Some((seen, seq![1u8] + rest))) == Ok::<Option<(u8, Seq<char>)>, Fault>(None),
        query_in(Some((seen, seq![3u8] + rest))) == Ok::<Option<(u8, Seq<char>)>, Fault>(
            Some((seen, lossy_text(rest))),
        ),
        query_in(Some((seen, seq![opening] + rest))) matches Err(fault) && !fault.retryable,
        query_in(Some((seen, seq![]))) matches Err(fault) && !fault.retryable,
{
    crate::laws::framing::commands_are_told_by_their_first_byte(opening, rest);
}

/// What a session sends for an answer, payload by payload: a result set is its
/// count of columns, their definitions, an EOF, its rows and an EOF; a count
/// is one OK, an error one ERR.
#[verifier::rlimit(40)]
pub proof fn answers_are_sent_payload_by_payload(
    columns: Seq<Seq<char>>,
    rows: Seq<Seq<Option<Seq<char>>>>,
    affected: u64,
    code: u16,
    state: Seq<char>,
    message: Seq<char>,
    i: int,
    j: int,
)
    requires
        columns.len() <= u64::MAX,
    ensures
        ({
            let payloads = answer_payloads(AnswerView::Rows { columns, rows });
            let width = columns.len() as int;
            &&& payloads.len() == width + rows.len() + 3
            &&& payloads[0] == lenenc(columns.len() as u64)
            &&& 0 <= i < width ==> payloads[1 + i] == crate::result::definition_bytes(columns[i])
            &&& payloads[1 + width] == seq![0xfeu8, 0u8, 0u8, 2u8, 0u8]
            &&& 0 <= j < rows.len() ==> payloads[2 + width + j] == row_bytes(rows[j])
            &&& payloads.last() == seq![0xfeu8, 0u8, 0u8, 2u8, 0u8]
        }),
        answer_payloads(AnswerView::Complete(affected)) == seq![
            seq![0u8] + lenenc(affected) + seq![0u8, 2u8, 0u8, 0u8, 0u8],
        ],
        answer_payloads(AnswerView::Error { code, state, message }) == seq![
            reply_bytes(ReplyView::Error { code, state, message }),
        ],
{
    crate::laws::replies::replies_are_written_field_by_field(
        affected,
        0,
        2,
        0,
        code,
        state,
        message,
        seq![],
    );
    assert(lenenc(0) =~= seq![0u8]);
    assert(seq![0u8] + lenenc(affected) + seq![0u8] + seq![2u8, 0u8, 0u8, 0u8] =~= seq![0u8]
        + lenenc(affected) + seq![0u8, 2u8, 0u8, 0u8, 0u8]);
}

/// Payloads are framed one after another, each numbered on from the last
/// packet of the one before; of none there is nothing.
pub proof fn payloads_are_framed_one_after_another(
    sequence: u8,
    payload: Seq<u8>,
    others: Seq<Seq<u8>>,
)
    ensures
        framed(sequence, seq![]) == Seq::<u8>::empty(),
        framed(sequence, seq![payload] + others) == packets(sequence, payload) + framed(
            crate::wire::sequence_after(sequence, payload.len()),
            others,
        ),
{
    assert((seq![payload] + others).drop_first() =~= others);
}

/// An answer goes out under the sequence byte after the query's, from 255 to
/// zero, payload after payload.
pub proof fn answers_are_numbered_after_their_query(seen: u8, answer: AnswerView)
    requires
        answer_payloads(answer).len() > 0,
        answer_payloads(answer)[0].len() < 64 * 1024 * 1024,
    ensures
        answer_bytes(seen, answer) == framed(((seen + 1) % 256) as u8, answer_payloads(answer)),
        joined(answer_bytes(seen, answer), None, seq![]) == (
            Ok::<Option<(u8, Seq<u8>)>, Fault>(
                Some((((seen + 1) % 256) as u8, answer_payloads(answer)[0])),
            ),
            framed(
                crate::wire::sequence_after(
                    ((seen + 1) % 256) as u8,
                    answer_payloads(answer)[0].len(),
                ),
                answer_payloads(answer).drop_first(),
            ),
        ),
{
    let bytes = answer_bytes(seen, answer);
    crate::laws::framed_read_back(
        ((seen + 1) % 256) as u8,
        answer_payloads(answer),
        Seq::empty(),
    );
    assert(bytes + Seq::<u8>::empty() =~= bytes);
    let left = framed(
        crate::wire::sequence_after(((seen + 1) % 256) as u8, answer_payloads(answer)[0].len()),
        answer_payloads(answer).drop_first(),
    );
    assert(left + Seq::<u8>::empty() =~= left);
}

/// A client is greeted under sequence zero with the session's version, its id
/// and its nonce, the four capabilities and the native plugin.
#[verifier::rlimit(40)]
pub proof fn clients_are_greeted_with_the_nonce(connection_id: u32, nonce: Seq<u8>)
    ensures
        greet_bytes(connection_id, nonce) == packets(
            0,
            greeting_bytes(session_greeting(connection_id, nonce)),
        ),
        session_greeting(connection_id, nonce) == (Greeting {
            server_version: "8.4.0-xmip"@,
            connection_id,
            nonce,
            capabilities: 0x8_8208,
            plugin: "mysql_native_password"@,
        }),
        joined(greet_bytes(connection_id, nonce), None, seq![]) == (
            Ok::<Option<(u8, Seq<u8>)>, Fault>(
                Some((0u8, greeting_bytes(session_greeting(connection_id, nonce)))),
            ),
            Seq::<u8>::empty(),
        ),
{
    let payload = greeting_bytes(session_greeting(connection_id, nonce));
    let bytes = greet_bytes(connection_id, nonce);
    crate::laws::handshakes::four_capabilities_are_taken_up();
    crate::laws::handshakes::greeting_is_written_field_by_field(
        session_greeting(connection_id, nonce),
    );
    reveal_strlit("8.4.0-xmip");
    reveal_strlit("mysql_native_password");
    vstd::utf8::is_ascii_chars_encode_utf8("8.4.0-xmip"@);
    vstd::utf8::is_ascii_chars_encode_utf8("mysql_native_password"@);
    assert(payload.len() < 200);
    frame_read_back(0, payload, seq![]);
    assert(bytes + seq![] =~= bytes);
}

/// A client of any make is let in where it gives the expected user, the native
/// plugin and the password scrambled with the nonce, and no other is: one
/// that is refused is told so as error 1045 with its user, its host and
/// whether it gave a password.
#[verifier::rlimit(40)]
pub proof fn only_the_expected_login_is_let_in(
    seen: u8,
    payload: Seq<u8>,
    response: Response,
    peer: Seq<char>,
    host: Seq<char>,
    nonce: Seq<u8>,
    user: Seq<char>,
    password: Seq<char>,
)
    requires
        response_of(payload) == Ok::<Response, Fault>(response),
    ensures
        ({
            let verdict = verdict_of(Some((seen, payload)), peer, host, nonce, user, password);
            let right = response.user == user && response.plugin == "mysql_native_password"@
                && response.auth_response == scrambled(password, nonce);
            let told = "Access denied for user '"@ + response.user + "'@'"@ + host
                + "' (using password: "@ + (if response.auth_response.len() == 0 {
                "NO"@
            } else {
                "YES"@
            }) + ")"@;
            let next = ((seen + 1) % 256) as u8;
            &&& right ==> verdict.outcome == Ok::<SessionView, Fault>(
                SessionView {
                    peer,
                    user: response.user,
                    database: response.database,
                    columns: seq![],
                    rows: seq![],
                },
            )
            &&& right ==> verdict.reply == Some(
                seq![7u8, 0u8, 0u8, next, 0u8, 0u8, 0u8, 2u8, 0u8, 0u8, 0u8],
            )
            &&& !right ==> verdict.outcome == Err::<SessionView, Fault>(
                (Fault { message: told, retryable: false }),
            )
            &&& !right ==> verdict.reply == Some(
                packets(
                    next,
                    reply_bytes(
                        ReplyView::Error { code: 1045, state: "28000"@, message: told },
                    ),
                ),
            )
        }),
{
    let next = ((seen + 1) % 256) as u8;
    assert(next_sequence(seen) == next);
    okay_packet(next);
}

/// The packet that lets a client in.
proof fn okay_packet(next: u8)
    ensures
        packets(next, reply_bytes(crate::session::okay(0))) == seq![
            7u8,
            0u8,
            0u8,
            next,
            0u8,
            0u8,
            0u8,
            2u8,
            0u8,
            0u8,
            0u8,
        ],
{
    let okay = reply_bytes(crate::session::okay(0));
    crate::laws::replies::replies_are_written_field_by_field(0, 0, 2, 0, 0, seq![], seq![], seq![]);
    assert(okay =~= seq![0u8, 0u8, 0u8, 2u8, 0u8, 0u8, 0u8]);
    short_payload_is_one_packet(next, okay);
    assert(packets(next, okay) =~= seq![7u8, 0u8, 0u8, next, 0u8, 0u8, 0u8, 2u8, 0u8, 0u8, 0u8]);
}

/// A client that closes or does not answer with a 4.1 response has no session
/// and is told nothing.
pub proof fn no_answer_is_no_session(
    seen: u8,
    payload: Seq<u8>,
    fault: Fault,
    peer: Seq<char>,
    host: Seq<char>,
    nonce: Seq<u8>,
    user: Seq<char>,
    password: Seq<char>,
)
    requires
        response_of(payload) == Err::<Response, Fault>(fault),
    ensures
        verdict_of(None, peer, host, nonce, user, password).reply is None,
        verdict_of(None, peer, host, nonce, user, password).outcome matches Err(closed)
            && !closed.retryable,
        verdict_of(Some((seen, payload)), peer, host, nonce, user, password).reply is None,
        verdict_of(Some((seen, payload)), peer, host, nonce, user, password).outcome == Err::<
            SessionView,
            Fault,
        >(fault),
{
}

/// A nonce is the digest of the clock, the peer and the counter, in decimal
/// and with colons between them, each byte of it folded into the printable
/// ones.
pub proof fn nonces_are_folded_digests(nanos: u128, peer: Seq<char>, connections: u32, i: int)
    ensures
        nonce_of(nanos, peer, connections).len() == 20,
        0 <= i < 20 ==> nonce_of(nanos, peer, connections)[i] == 33 + digest_of(
            encode_utf8(
                decimal_text(nanos as nat) + ":"@ + peer + ":"@ + decimal_text(connections as nat),
            ),
        )[i] % 94,
{
}

} // verus!
