//! What holds of a server's replies and of the parts of a result set, whoever
//! wrote them.

use crate::error::Fault;
use crate::laws::fields::{
    fixed_fields_are_taken_from_the_front, numbers_are_written_low_byte_first,
};
use crate::result::{
    column_count_of, column_name_of, definition_bytes, reply_bytes, reply_in_result_set, reply_of,
    row_bytes, row_of, state_bytes, string_after, value_bytes, ReplyView,
};
use crate::text::lossy_text;
use crate::wire::{
    bytes_read_back, lenenc, lenenc_read_back, lenenc_string, read_lenenc, read_lenenc_str,
};
use vstd::prelude::*;
use vstd::utf8::encode_utf8;

verus! {

/// What each reply is on the wire: its header, and its numbers with the
/// lowest byte first; an error's state is five bytes behind `#`.
#[verifier::rlimit(40)]
pub proof fn replies_are_written_field_by_field(
    affected_rows: u64,
    last_insert_id: u64,
    status: u16,
    warnings: u16,
    code: u16,
    state: Seq<char>,
    message: Seq<char>,
    bytes: Seq<u8>,
)
    ensures
        reply_bytes(
            ReplyView::Okay { affected_rows, last_insert_id, status, warnings },
        ) == seq![0u8] + lenenc(affected_rows) + lenenc(last_insert_id) + seq![
            (status % 256) as u8,
            (status / 256) as u8,
            (warnings % 256) as u8,
            (warnings / 256) as u8,
        ],
        reply_bytes(ReplyView::Eof { warnings, status }) == seq![
            0xfeu8,
            (warnings % 256) as u8,
            (warnings / 256) as u8,
            (status % 256) as u8,
            (status / 256) as u8,
        ],
        reply_bytes(ReplyView::Error { code, state, message }) == seq![
            0xffu8,
            (code % 256) as u8,
            (code / 256) as u8,
            0x23u8,
        ] + state_bytes(state) + encode_utf8(message),
        reply_bytes(ReplyView::Data(bytes)) == bytes,
        state_bytes(state).len() == 5,
        forall|i: int|
            0 <= i < 5 ==> #[trigger] state_bytes(state)[i] == (if i < encode_utf8(state).len() {
                encode_utf8(state)[i]
            } else {
                0x30u8
            }),
{
    numbers_are_written_low_byte_first(status as nat);
    numbers_are_written_low_byte_first(warnings as nat);
    numbers_are_written_low_byte_first(code as nat);
    let okay = ReplyView::Okay { affected_rows, last_insert_id, status, warnings };
    assert(reply_bytes(okay) =~= seq![0u8] + lenenc(affected_rows) + lenenc(last_insert_id) + seq![
        (status % 256) as u8,
        (status / 256) as u8,
        (warnings % 256) as u8,
        (warnings / 256) as u8,
    ]);
    assert(reply_bytes(ReplyView::Eof { warnings, status }) =~= seq![
        0xfeu8,
        (warnings % 256) as u8,
        (warnings / 256) as u8,
        (status % 256) as u8,
        (status / 256) as u8,
    ]);
    assert(reply_bytes(ReplyView::Error { code, state, message }) =~= seq![
        0xffu8,
        (code % 256) as u8,
        (code / 256) as u8,
        0x23u8,
    ] + state_bytes(state) + encode_utf8(message));
}

/// An OK of any server: two length-encoded integers and two numbers, and what
/// follows them is passed over.
#[verifier::rlimit(40)]
pub proof fn okay_is_read_field_by_field(
    affected_rows: u64,
    last_insert_id: u64,
    s0: u8,
    s1: u8,
    w0: u8,
    w1: u8,
    rest: Seq<u8>,
)
    ensures
        reply_of(
            seq![0u8] + (lenenc(affected_rows) + (lenenc(last_insert_id) + (seq![s0, s1] + (seq![
                w0,
                w1,
            ] + rest)))),
        ) == Ok::<ReplyView, Fault>(
            ReplyView::Okay {
                affected_rows,
                last_insert_id,
                status: (s0 + s1 * 0x100) as u16,
                warnings: (w0 + w1 * 0x100) as u16,
            },
        ),
        reply_of(seq![0u8]) matches Err(fault) && !fault.retryable,
{
    let tail = seq![s0, s1] + (seq![w0, w1] + rest);
    let fields = lenenc(affected_rows) + (lenenc(last_insert_id) + tail);
    assert((seq![0u8] + fields).skip(1) =~= fields);
    lenenc_read_back(affected_rows, lenenc(last_insert_id) + tail);
    lenenc_read_back(last_insert_id, tail);
    fixed_fields_are_taken_from_the_front(s0, s1, 0, 0, seq![], seq![w0, w1] + rest, seq![], 1);
    fixed_fields_are_taken_from_the_front(w0, w1, 0, 0, seq![], rest, seq![], 1);
    assert(seq![0u8].skip(1) =~= seq![]);
}

/// The integers of an OK may be written in any width.
pub proof fn okay_takes_integers_of_any_width(
    payload: Seq<u8>,
    affected_rows: u64,
    after: Seq<u8>,
    last_insert_id: u64,
    s0: u8,
    s1: u8,
    w0: u8,
    w1: u8,
    rest: Seq<u8>,
)
    requires
        read_lenenc(payload) == (Ok::<u64, Fault>(affected_rows), after),
        read_lenenc(after) == (
            Ok::<u64, Fault>(last_insert_id),
            seq![s0, s1] + (seq![w0, w1] + rest),
        ),
    ensures
        reply_of(seq![0u8] + payload) == Ok::<ReplyView, Fault>(
            ReplyView::Okay {
                affected_rows,
                last_insert_id,
                status: (s0 + s1 * 0x100) as u16,
                warnings: (w0 + w1 * 0x100) as u16,
            },
        ),
{
    assert((seq![0u8] + payload).skip(1) =~= payload);
    fixed_fields_are_taken_from_the_front(s0, s1, 0, 0, seq![], seq![w0, w1] + rest, seq![], 1);
    fixed_fields_are_taken_from_the_front(w0, w1, 0, 0, seq![], rest, seq![], 1);
}

/// An OK that breaks off between its fields or inside one is refused for good.
#[verifier::rlimit(40)]
pub proof fn broken_okays_are_refused(
    affected_rows: u64,
    last_insert_id: u64,
    short: Seq<u8>,
    s0: u8,
    s1: u8,
    shorter: Seq<u8>,
)
    requires
        short.len() < 2,
        shorter.len() < 2,
    ensures
        reply_of(seq![0u8] + lenenc(affected_rows)) matches Err(fault) && !fault.retryable,
        reply_of(seq![0u8] + (lenenc(affected_rows) + (lenenc(last_insert_id) + short)))
            matches Err(fault) && !fault.retryable,
        reply_of(
            seq![0u8] + (lenenc(affected_rows) + (lenenc(last_insert_id) + (seq![s0, s1]
                + shorter))),
        ) matches Err(fault) && !fault.retryable,
{
    let first = lenenc(affected_rows);
    let second = lenenc(last_insert_id);
    lenenc_read_back(affected_rows, seq![]);
    assert(first + Seq::<u8>::empty() =~= first);
    assert((seq![0u8] + first).skip(1) =~= first);
    lenenc_read_back(affected_rows, second + short);
    lenenc_read_back(last_insert_id, short);
    assert((seq![0u8] + (first + (second + short))).skip(1) =~= first + (second + short));
    let tail = seq![s0, s1] + shorter;
    lenenc_read_back(affected_rows, second + tail);
    lenenc_read_back(last_insert_id, tail);
    fixed_fields_are_taken_from_the_front(s0, s1, 0, 0, seq![], shorter, seq![], 1);
    assert((seq![0u8] + (first + (second + tail))).skip(1) =~= first + (second + tail));
}

/// An ERR of any server: a code, then where `#` follows five bytes of state,
/// and the message to the end; without it there is no state.
#[verifier::rlimit(40)]
pub proof fn error_is_read_field_by_field(
    c0: u8,
    c1: u8,
    state: Seq<u8>,
    message: Seq<u8>,
    plain: Seq<u8>,
    short: Seq<u8>,
    shorter: Seq<u8>,
)
    requires
        state.len() == 5,
        short.len() < 5,
        shorter.len() < 2,
        plain.len() == 0 || plain[0] != 0x23,
    ensures
        reply_of(seq![0xffu8] + (seq![c0, c1] + (seq![0x23u8] + (state + message)))) == Ok::<
            ReplyView,
            Fault,
        >(
            ReplyView::Error {
                code: (c0 + c1 * 0x100) as u16,
                state: lossy_text(state),
                message: lossy_text(message),
            },
        ),
        reply_of(seq![0xffu8] + (seq![c0, c1] + plain)) == Ok::<ReplyView, Fault>(
            ReplyView::Error {
                code: (c0 + c1 * 0x100) as u16,
                state: seq![],
                message: lossy_text(plain),
            },
        ),
        reply_of(seq![0xffu8] + (seq![c0, c1] + (seq![0x23u8] + short))) matches Err(fault)
            && !fault.retryable,
        reply_of(seq![0xffu8] + shorter) matches Err(fault) && !fault.retryable,
{
    let marked = seq![0x23u8] + (state + message);
    let cut = seq![0x23u8] + short;
    assert((seq![0xffu8] + (seq![c0, c1] + marked)).skip(1) =~= seq![c0, c1] + marked);
    assert((seq![0xffu8] + (seq![c0, c1] + plain)).skip(1) =~= seq![c0, c1] + plain);
    assert((seq![0xffu8] + (seq![c0, c1] + cut)).skip(1) =~= seq![c0, c1] + cut);
    assert((seq![0xffu8] + shorter).skip(1) =~= shorter);
    fixed_fields_are_taken_from_the_front(c0, c1, 0, 0, seq![], marked, seq![], 1);
    fixed_fields_are_taken_from_the_front(c0, c1, 0, 0, seq![], plain, seq![], 1);
    fixed_fields_are_taken_from_the_front(c0, c1, 0, 0, seq![], cut, seq![], 1);
    assert(marked.skip(1) =~= state + message);
    assert(cut.skip(1) =~= short);
    bytes_read_back(state, message);
}

/// Which packet a payload is, by its first byte and its length: 0 is OK, 0xFF
/// is ERR, 0xFE is EOF under nine bytes, and anything else is data as it
/// came. Inside a result set a first byte of 0 is data.
pub proof fn replies_are_told_by_their_first_byte(
    opening: u8,
    rest: Seq<u8>,
    w0: u8,
    w1: u8,
    s0: u8,
    s1: u8,
    few: Seq<u8>,
)
    requires
        few.len() < 4,
    ensures
        reply_of(seq![0xfeu8] + (seq![w0, w1] + (seq![s0, s1] + few))) == Ok::<ReplyView, Fault>(
            ReplyView::Eof { warnings: (w0 + w1 * 0x100) as u16, status: (s0 + s1 * 0x100) as u16 },
        ),
        opening != 0 && opening != 0xff && (opening != 0xfe || rest.len() >= 8) ==> reply_of(
            seq![opening] + rest,
        ) == Ok::<ReplyView, Fault>(ReplyView::Data(seq![opening] + rest)),
        reply_of(seq![]) matches Err(fault) && !fault.retryable,
        reply_of(seq![0xfeu8] + few) matches Err(fault) && !fault.retryable,
        reply_in_result_set(seq![0u8] + rest) == Ok::<ReplyView, Fault>(
            ReplyView::Data(seq![0u8] + rest),
        ),
        opening != 0 ==> reply_in_result_set(seq![opening] + rest) == reply_of(
            seq![opening] + rest,
        ),
        reply_in_result_set(seq![]) matches Err(fault) && !fault.retryable,
{
    let tail = seq![s0, s1] + few;
    let payload = seq![0xfeu8] + (seq![w0, w1] + tail);
    assert(payload.skip(1) =~= seq![w0, w1] + tail);
    fixed_fields_are_taken_from_the_front(w0, w1, 0, 0, seq![], tail, seq![], 1);
    fixed_fields_are_taken_from_the_front(s0, s1, 0, 0, seq![], few, seq![], 1);
    assert((seq![0xfeu8] + few).skip(1) =~= few);
}

/// The count that opens a result set is one length-encoded integer, whichever
/// way it is written, and nothing after it.
pub proof fn counts_stand_alone(payload: Seq<u8>)
    ensures
        match read_lenenc(payload) {
            (Ok(count), rest) => if rest.len() == 0 && count <= usize::MAX {
                column_count_of(payload) == Ok::<usize, Fault>(count as usize)
            } else {
                column_count_of(payload) matches Err(fault) && !fault.retryable
            },
            (Err(fault), _) => column_count_of(payload) == Err::<usize, Fault>(fault),
        },
{
}

/// The name of a column is the fifth string of its definition - after the
/// catalogue, the schema, the table and the table's own name - whatever
/// follows it, the column's own name in its table among that.
#[verifier::rlimit(40)]
pub proof fn column_name_is_the_fifth_string(
    catalogue: Seq<char>,
    schema: Seq<char>,
    table: Seq<char>,
    own_table: Seq<char>,
    name: Seq<char>,
    rest: Seq<u8>,
)
    requires
        encode_utf8(catalogue).len() <= usize::MAX,
        encode_utf8(schema).len() <= usize::MAX,
        encode_utf8(table).len() <= usize::MAX,
        encode_utf8(own_table).len() <= usize::MAX,
        encode_utf8(name).len() <= usize::MAX,
    ensures
        column_name_of(
            counted(catalogue) + (counted(schema) + (counted(table) + (counted(own_table) + (counted(
                name,
            ) + rest)))),
        ) == Ok::<Seq<char>, Fault>(name),
        column_name_of(
            counted(catalogue) + (counted(schema) + (counted(table) + (counted(own_table) + rest))),
        ) == read_lenenc_str(rest).0,
        column_name_of(counted(catalogue) + (counted(schema) + counted(table))) matches Err(fault)
            && !fault.retryable,
        column_name_of(counted(catalogue) + counted(schema)) matches Err(fault) && !fault.retryable,
        column_name_of(counted(catalogue)) matches Err(fault) && !fault.retryable,
        column_name_of(seq![]) matches Err(fault) && !fault.retryable,
{
    let named = counted(name) + rest;
    let d = counted(own_table);
    let c = counted(table);
    let b = counted(schema);
    string_passed(catalogue, b + (c + (d + named)), 3);
    string_passed(schema, c + (d + named), 2);
    string_passed(table, d + named, 1);
    string_passed(own_table, named, 0);
    string_taken(name, rest);
    string_passed(catalogue, b + (c + (d + rest)), 3);
    string_passed(schema, c + (d + rest), 2);
    string_passed(table, d + rest, 1);
    string_passed(own_table, rest, 0);
    last_string(rest);
    let a = counted(catalogue);
    let none = Seq::<u8>::empty();
    assert(a + none =~= a);
    assert(b + none =~= b);
    assert(c + none =~= c);
    string_passed(catalogue, b + c, 3);
    string_passed(schema, c, 2);
    string_passed(table, none, 1);
    string_passed(catalogue, b, 3);
    string_passed(schema, none, 2);
    string_passed(catalogue, none, 3);
    no_string(1);
    no_string(2);
    no_string(3);
    no_string(4);
}

/// The string that comes next is the one after none.
proof fn last_string(bytes: Seq<u8>)
    ensures
        string_after(bytes, 0) == read_lenenc_str(bytes).0,
{
}

/// A string before the one that is looked for is passed.
proof fn string_passed(text: Seq<char>, rest: Seq<u8>, count: nat)
    requires
        encode_utf8(text).len() <= usize::MAX,
    ensures
        string_after(counted(text) + rest, count + 1) == string_after(rest, count),
{
    counted_read(text, rest);
}

/// The string that is looked for is taken.
proof fn string_taken(text: Seq<char>, rest: Seq<u8>)
    requires
        encode_utf8(text).len() <= usize::MAX,
    ensures
        string_after(counted(text) + rest, 0) == Ok::<Seq<char>, Fault>(text),
{
    counted_read(text, rest);
}

/// There is no string in nothing.
proof fn no_string(count: nat)
    ensures
        string_after(seq![], count) matches Err(fault) && !fault.retryable,
{
}

/// The strings of a definition may be any bytes behind any spelling of their
/// count: four are passed, and the name is what the next is read as.
pub proof fn column_name_follows_four_strings(
    payload: Seq<u8>,
    one: Seq<u8>,
    two: Seq<u8>,
    three: Seq<u8>,
    four: Seq<u8>,
)
    requires
        read_lenenc_str(payload).0 is Ok && read_lenenc_str(payload).1 == one,
        read_lenenc_str(one).0 is Ok && read_lenenc_str(one).1 == two,
        read_lenenc_str(two).0 is Ok && read_lenenc_str(two).1 == three,
        read_lenenc_str(three).0 is Ok && read_lenenc_str(three).1 == four,
    ensures
        column_name_of(payload) == read_lenenc_str(four).0,
{
    reveal_with_fuel(string_after, 5);
}

/// Text behind the count of its bytes, as it goes over the wire.
pub open spec fn counted(text: Seq<char>) -> Seq<u8> {
    lenenc(encode_utf8(text).len() as u64) + encode_utf8(text)
}

/// Text behind its count is read, and what follows it is left.
proof fn counted_read(text: Seq<char>, rest: Seq<u8>)
    requires
        encode_utf8(text).len() <= usize::MAX,
    ensures
        read_lenenc_str(counted(text) + rest) == (Ok::<Seq<char>, Fault>(text), rest),
{
    crate::wire::lenenc_str_read_back(text, rest);
}

/// A definition that is written names the catalogue `def`, no schema and no
/// table, the column twice, and ends in twelve bytes of fixed fields.
#[verifier::rlimit(40)]
pub proof fn definition_is_written_field_by_field(name: Seq<char>)
    ensures
        definition_bytes(name) == seq![3u8, 100u8, 101u8, 102u8, 0u8, 0u8, 0u8] + counted(name)
            + counted(name) + seq![
            12u8,
            45u8,
            0u8,
            0xffu8,
            0xffu8,
            0xffu8,
            0xffu8,
            0xfdu8,
            0u8,
            0u8,
            0u8,
            0u8,
            0u8,
        ],
{
    numbers_are_written_low_byte_first(45);
    numbers_are_written_low_byte_first(0xffff_ffff);
    numbers_are_written_low_byte_first(0);
    reveal_strlit("def");
    vstd::utf8::is_ascii_chars_encode_utf8("def"@);
    assert('d' as u8 == 100 && 'e' as u8 == 101 && 'f' as u8 == 102);
    assert(encode_utf8("def"@) =~= seq![100u8, 101u8, 102u8]);
    let n = counted(name);
    let opening = seq![3u8, 100u8, 101u8, 102u8, 0u8, 0u8, 0u8];
    let end = seq![
        12u8,
        45u8,
        0u8,
        0xffu8,
        0xffu8,
        0xffu8,
        0xffu8,
        0xfdu8,
        0u8,
        0u8,
        0u8,
        0u8,
        0u8,
    ];
    assert(crate::result::definition_end() =~= end);
    let named = n + (n + end);
    let blank = lenenc_string(seq![]);
    assert(blank =~= seq![0u8]);
    assert(lenenc_string(encode_utf8("def"@)) =~= seq![3u8, 100u8, 101u8, 102u8]);
    assert(seq![3u8, 100u8, 101u8, 102u8] + (seq![0u8] + (seq![0u8] + (seq![0u8] + named)))
        =~= opening + named);
    assert(opening + (n + (n + end)) =~= opening + n + n + end);
}

/// A row goes over the wire value by value: each text behind its count, each
/// NULL as one byte of 0xFB.
pub proof fn rows_are_written_value_by_value(
    first: Seq<Option<Seq<char>>>,
    second: Seq<Option<Seq<char>>>,
    text: Seq<char>,
)
    ensures
        row_bytes(seq![]) == Seq::<u8>::empty(),
        row_bytes(seq![None]) == seq![0xfbu8],
        row_bytes(seq![Some(text)]) == counted(text),
        row_bytes(first + second) == row_bytes(first) + row_bytes(second),
    decreases first.len(),
{
    reveal_with_fuel(row_bytes, 2);
    assert(seq![None::<Seq<char>>].drop_first() =~= seq![]);
    assert(seq![Some(text)].drop_first() =~= seq![]);
    assert(row_bytes(seq![None]) =~= seq![0xfbu8]);
    assert(row_bytes(seq![Some(text)]) =~= counted(text));
    if first.len() == 0 {
        assert(first + second =~= second);
        assert(row_bytes(first) + row_bytes(second) =~= row_bytes(second));
    } else {
        let left = first.drop_first();
        rows_are_written_value_by_value(left, second, text);
        assert((first + second).drop_first() =~= left + second);
        assert((first + second)[0] == first[0]);
        assert(value_bytes(first[0]) + (row_bytes(left) + row_bytes(second)) =~= value_bytes(
            first[0],
        ) + row_bytes(left) + row_bytes(second));
    }
}

/// A row is read value by value: 0xFB is a NULL, a counted text is itself,
/// the rest is read as the values after it, and what is left over is passed
/// over; a row with fewer values than columns is refused for good.
pub proof fn rows_are_read_value_by_value(text: Seq<char>, rest: Seq<u8>, count: nat)
    requires
        encode_utf8(text).len() <= usize::MAX,
    ensures
        row_of(rest, 0) == Ok::<Seq<Option<Seq<char>>>, Fault>(seq![]),
        rest.len() > 0 && rest[0] != 0xfb ==> (read_lenenc_str(rest).0 matches Ok(read) ==> (
        match row_of(read_lenenc_str(rest).1, count) {
            Ok(values) => row_of(rest, count + 1) == Ok::<Seq<Option<Seq<char>>>, Fault>(
                seq![Some(read)] + values,
            ),
            Err(fault) => row_of(rest, count + 1) == Err::<Seq<Option<Seq<char>>>, Fault>(fault),
        })),
        row_of(seq![], count + 1) matches Err(fault) && !fault.retryable,
        (rest.len() == 0 || rest[0] != 0xfb) ==> (read_lenenc_str(rest).0 matches Err(fault)
            ==> row_of(rest, count + 1) == Err::<Seq<Option<Seq<char>>>, Fault>(fault)),
        match row_of(rest, count) {
            Ok(values) => {
                &&& row_of(seq![0xfbu8] + rest, count + 1) == Ok::<Seq<Option<Seq<char>>>, Fault>(
                    seq![None] + values,
                )
                &&& row_of(counted(text) + rest, count + 1) == Ok::<Seq<Option<Seq<char>>>, Fault>(
                    seq![Some(text)] + values,
                )
            },
            Err(fault) => {
                &&& row_of(seq![0xfbu8] + rest, count + 1) == Err::<
                    Seq<Option<Seq<char>>>,
                    Fault,
                >(fault)
                &&& row_of(counted(text) + rest, count + 1) == Err::<
                    Seq<Option<Seq<char>>>,
                    Fault,
                >(fault)
            },
        },
{
    reveal_with_fuel(row_of, 2);
    counted_read(text, rest);
    let written = counted(text) + rest;
    assert(written[0] == lenenc(encode_utf8(text).len() as u64)[0]);
    assert((seq![0xfbu8] + rest).skip(1) =~= rest);
}

} // verus!
