//! What each failure says, and that it lasts.

use crate::client::{column_step, greeting_in, login_outcome, opened};
use crate::error::{lasting, Fault};
use crate::handshake::{greeting_of, response_of};
use crate::hex::byte_digits;
use crate::result::{column_count_of, reply_in_result_set, reply_of, ReplyView};
use crate::session::{unserved, verdict_of, AnswerView};
use crate::text::decimal_text;
use crate::wire::{
    announced, byte_read_back, closed_before, command_of, joined, read_byte, read_bytes,
    read_cstring, read_int16, read_int32, read_lenenc, read_lenenc_str,
};
use vstd::prelude::*;

verus! {

/// What a field says that cannot be read, and that the bytes it could not
/// read are left.
pub proof fn unreadable_fields_say_why(
    short: Seq<u8>,
    count: nat,
    opening: u8,
    rest: Seq<u8>,
    open_ended: Seq<u8>,
)
    requires
        short.len() < count,
        opening == 0xfb || opening == 0xff,
        forall|i: int| 0 <= i < open_ended.len() ==> open_ended[i] != 0,
    ensures
        read_bytes(short, count) == (
            Err::<Seq<u8>, Fault>(lasting("a field that runs past the packet"@)),
            short,
        ),
        short.len() < 1 ==> read_byte(short) == (
            Err::<u8, Fault>(lasting("a field that runs past the packet"@)),
            short,
        ),
        short.len() < 2 ==> read_int16(short) == (
            Err::<u16, Fault>(lasting("a field that runs past the packet"@)),
            short,
        ),
        short.len() < 4 ==> read_int32(short) == (
            Err::<u32, Fault>(lasting("a field that runs past the packet"@)),
            short,
        ),
        read_lenenc(seq![opening] + rest) == (
            Err::<u64, Fault>(
                lasting(
                    "0x"@ + byte_digits(opening) + " does not open a length-encoded integer"@,
                ),
            ),
            rest,
        ),
        read_cstring(open_ended) == (
            Err::<Seq<char>, Fault>(lasting("a string that never ends"@)),
            open_ended,
        ),
{
    byte_read_back(opening, rest);
    crate::wire::before_nul_is(open_ended, open_ended.len());
}

/// A string fails as its length does, as one that runs past its packet, or as
/// one that memory cannot hold.
pub proof fn unreadable_strings_say_why(bytes: Seq<u8>)
    ensures
        match read_lenenc(bytes) {
            (Err(fault), rest) => read_lenenc_str(bytes) == (Err::<Seq<char>, Fault>(fault), rest),
            (Ok(length), rest) => {
                &&& length > usize::MAX ==> read_lenenc_str(bytes) == (
                    Err::<Seq<char>, Fault>(lasting("a string longer than memory"@)),
                    rest,
                )
                &&& rest.len() < length <= usize::MAX ==> read_lenenc_str(bytes) == (
                    Err::<Seq<char>, Fault>(lasting("a field that runs past the packet"@)),
                    rest,
                )
            },
        },
{
}

/// What a stream says that breaks off or runs over.
pub proof fn broken_streams_say_why(
    first: Option<u8>,
    so_far: Seq<u8>,
    few: Seq<u8>,
    b0: u8,
    b1: u8,
    b2: u8,
    sequence: u8,
    rest: Seq<u8>,
)
    requires
        0 < few.len() < 4,
    ensures
        closed_before(Some(sequence)) == Err::<Option<(u8, Seq<u8>)>, Fault>(
            lasting("the peer closed inside a packet"@),
        ),
        joined(seq![], Some(sequence), so_far).0 == Err::<Option<(u8, Seq<u8>)>, Fault>(
            lasting("the peer closed inside a packet"@),
        ),
        joined(few, first, so_far).0 == Err::<Option<(u8, Seq<u8>)>, Fault>(
            lasting("a packet header that breaks off"@),
        ),
        ({
            let count = b0 + b1 * 0x100 + b2 * 0x1_0000;
            let stream = seq![b0, b1, b2, sequence] + rest;
            &&& so_far.len() + count > 64 * 1024 * 1024 ==> joined(stream, first, so_far).0 == Err::<
                Option<(u8, Seq<u8>)>,
                Fault,
            >(lasting("a payload over what Xmip will read"@))
            &&& so_far.len() + count > 64 * 1024 * 1024 ==> announced(
                so_far.len(),
                seq![b0, b1, b2, sequence],
            ) == Err::<nat, Fault>(lasting("a payload over what Xmip will read"@))
            &&& so_far.len() + count <= 64 * 1024 * 1024 && rest.len() < count ==> joined(
                stream,
                first,
                so_far,
            ).0 == Err::<Option<(u8, Seq<u8>)>, Fault>(
                lasting("a packet payload that breaks off"@),
            )
        }),
{
    let header = seq![b0, b1, b2, sequence];
    assert(header.take(3) =~= seq![b0, b1, b2]);
    crate::laws::fields::numbers_are_read_low_byte_first(b0, b1, b2, 0, 0, 0, 0, 0);
    assert((header + rest).take(4) =~= header);
    assert((header + rest).skip(4) =~= rest);
}

/// What a payload says that is not what was to come.
pub proof fn wrong_payloads_say_why(
    opening: u8,
    version: u8,
    rest: Seq<u8>,
    c: Seq<u8>,
    payload: Seq<u8>,
)
    requires
        opening != 1 && opening != 3,
        version != 10,
        c.len() == 4,
        ((c[0] + c[1] * 0x100 + c[2] * 0x1_0000 + c[3] * 0x100_0000) as u32) & 0x200 == 0,
    ensures
        command_of(seq![]) == Err::<crate::wire::CommandView, Fault>(
            lasting("an empty command packet"@),
        ),
        command_of(seq![opening] + rest) == Err::<crate::wire::CommandView, Fault>(
            lasting(
                "command "@ + ("0x"@ + byte_digits(opening)) + " is not one this crate serves"@,
            ),
        ),
        greeting_of(seq![version] + rest) == Err::<crate::handshake::Greeting, Fault>(
            lasting("handshake version "@ + decimal_text(version as nat) + " is not 10"@),
        ),
        response_of(c + rest) == Err::<crate::handshake::Response, Fault>(
            lasting("a client without protocol 4.1"@),
        ),
        reply_of(seq![]) == Err::<ReplyView, Fault>(lasting("an empty reply"@)),
        reply_in_result_set(seq![]) == Err::<ReplyView, Fault>(lasting("an empty reply"@)),
        match read_lenenc(payload) {
            (Ok(count), left) => {
                &&& left.len() > 0 ==> column_count_of(payload) == Err::<usize, Fault>(
                    lasting("a column count with something after it"@),
                )
                &&& left.len() == 0 && count > usize::MAX ==> column_count_of(payload) == Err::<
                    usize,
                    Fault,
                >(lasting("more columns than memory"@))
            },
            _ => true,
        },
{
    byte_read_back(version, rest);
    assert(c =~= seq![c[0], c[1], c[2], c[3]]);
    crate::laws::fields::fixed_fields_are_taken_from_the_front(
        c[0],
        c[1],
        c[2],
        c[3],
        seq![],
        rest,
        seq![],
        1,
    );
}

/// What a client says of a server that does not let it in or does not keep to
/// the order of an answer.
pub proof fn servers_out_of_order_are_told_why(
    sequence: u8,
    password: Seq<char>,
    payload: Seq<u8>,
    reply: ReplyView,
    columns: Seq<Seq<char>>,
    count: usize,
)
    requires
        columns.len() >= count,
    ensures
        greeting_in(None) == Err::<crate::handshake::Greeting, Fault>(
            lasting("the server closed before "@ + "the greeting"@),
        ),
        (payload.len() == 0 || payload[0] != 0xff) ==> (greeting_of(payload) matches Ok(greeting)
            ==> (greeting.capabilities & 0x200 == 0 ==> greeting_in(Some(payload)) == Err::<
            crate::handshake::Greeting,
            Fault,
        >(lasting("a server without protocol 4.1"@)))),
        login_outcome(None, password) == Err::<Option<Seq<u8>>, Fault>(
            lasting("the server closed before "@ + "the login's answer"@),
        ),
        reply_of(payload) == Ok::<ReplyView, Fault>(reply) ==> {
            let outcome = login_outcome(Some((sequence, payload)), password);
            &&& reply is Eof ==> outcome == Err::<Option<Seq<u8>>, Fault>(
                lasting(
                    "the server asks for the pre-4.1 password, which this crate does not speak"@,
                ),
            )
            &&& reply is Data && payload[0] == 1 ==> outcome == Err::<Option<Seq<u8>>, Fault>(
                lasting("the server asks for more than the native password gives"@),
            )
            &&& reply is Data && payload[0] != 1 && payload[0] != 0xfe ==> outcome == Err::<
                Option<Seq<u8>>,
                Fault,
            >(lasting("the server answered the login with data"@))
            &&& reply is Eof ==> opened(payload) == Err::<crate::client::ProgressView, Fault>(
                lasting("EOF where a result set should open"@),
            )
        },
        reply_in_result_set(payload) == Ok::<ReplyView, Fault>(reply) ==> {
            reply is Data || reply is Okay ==> column_step(count, columns, payload) == Err::<
                crate::client::ProgressView,
                Fault,
            >(lasting("no EOF after the column definitions"@))
        },
{
}

/// What a session says of a client that closed, and of an insert that it does
/// not serve.
pub proof fn sessions_say_why(
    peer: Seq<char>,
    host: Seq<char>,
    nonce: Seq<u8>,
    user: Seq<char>,
    password: Seq<char>,
)
    ensures
        verdict_of(None, peer, host, nonce, user, password).outcome == Err::<
            crate::session::SessionView,
            Fault,
        >(lasting("the client closed before answering the greeting"@)),
        unserved() == (AnswerView::Error {
            code: 1064,
            state: "42000"@,
            message: "only INSERT INTO t (c) VALUES (...) is served here"@,
        }),
{
}

} // verus!
