//! What holds of packets and of the commands in them, whoever wrote them.

use crate::client::{goodbye, query_request};
use crate::error::Fault;
use crate::laws::fields::{numbers_are_read_low_byte_first, numbers_are_written_low_byte_first};
use crate::text::lossy_text;
use crate::wire::{
    announced, closed_before, command_bytes, command_of, frame_read_back, joined, le_value,
    next_sequence, opened_by, packet, packets, sequence_after, CommandView,
};
use vstd::prelude::*;
use vstd::utf8::encode_utf8;

verus! {

/// A payload under 16 MiB less one is one packet: its length in three bytes,
/// the lowest first, the sequence byte, and the payload; and the sequence
/// goes on by one, from 255 to zero.
pub proof fn short_payload_is_one_packet(sequence: u8, payload: Seq<u8>)
    requires
        payload.len() < 0xff_ffff,
    ensures
        packets(sequence, payload) == seq![
            (payload.len() % 256) as u8,
            (payload.len() / 0x100 % 256) as u8,
            (payload.len() / 0x1_0000) as u8,
            sequence,
        ] + payload,
        sequence_after(sequence, payload.len()) == (sequence + 1) % 256,
        next_sequence(sequence) == (sequence + 1) % 256,
{
    numbers_are_written_low_byte_first(payload.len());
    assert(packets(sequence, payload) =~= seq![
        (payload.len() % 256) as u8,
        (payload.len() / 0x100 % 256) as u8,
        (payload.len() / 0x1_0000) as u8,
        sequence,
    ] + payload);
}

/// A longer payload fills a packet of 16 MiB less one and goes on in the
/// next, under the next sequence byte; one that fills its last packet exactly
/// is ended by an empty one.
pub proof fn long_payload_goes_on(sequence: u8, full: Seq<u8>, rest: Seq<u8>)
    requires
        full.len() == 0xff_ffff,
    ensures
        packets(sequence, full + rest) == seq![0xffu8, 0xffu8, 0xffu8, sequence] + full + packets(
            ((sequence + 1) % 256) as u8,
            rest,
        ),
        sequence_after(sequence, 0xff_ffff + rest.len()) == sequence_after(
            ((sequence + 1) % 256) as u8,
            rest.len(),
        ),
{
    let all = full + rest;
    assert(all.take(0xff_ffff) =~= full);
    assert(all.skip(0xff_ffff) =~= rest);
    numbers_are_written_low_byte_first(0xff_ffff);
    assert(packet(sequence, full) =~= seq![0xffu8, 0xffu8, 0xffu8, sequence] + full);
    crate::wire::full_packet_counts(sequence, 0xff_ffff + rest.len());
}

/// A packet is read by its header: three bytes of length, the lowest first,
/// and the sequence byte; what follows its payload is left. It ends the
/// payload of the full packets before it.
pub proof fn packet_is_read_by_its_header(
    b0: u8,
    b1: u8,
    b2: u8,
    sequence: u8,
    body: Seq<u8>,
    tail: Seq<u8>,
    first: Option<u8>,
    so_far: Seq<u8>,
)
    requires
        body.len() == b0 + b1 * 0x100 + b2 * 0x1_0000,
        body.len() < 0xff_ffff,
        so_far.len() + body.len() <= 64 * 1024 * 1024,
    ensures
        joined(seq![b0, b1, b2, sequence] + body + tail, first, so_far) == (
            Ok::<Option<(u8, Seq<u8>)>, Fault>(
                Some(
                    (
                        match first {
                            Some(number) => number,
                            None => sequence,
                        },
                        so_far + body,
                    ),
                ),
            ),
            tail,
        ),
        joined(seq![b0, b1, b2, sequence] + body + tail, None, seq![]) == (
            Ok::<Option<(u8, Seq<u8>)>, Fault>(Some((sequence, body))),
            tail,
        ),
{
    let header = seq![b0, b1, b2, sequence];
    let stream = header + body + tail;
    header_read(b0, b1, b2, sequence);
    assert(stream =~= header + (body + tail));
    assert(stream.take(4) =~= header);
    assert(stream.skip(4) =~= body + tail);
    assert((body + tail).take(body.len() as int) =~= body);
    assert((body + tail).skip(body.len() as int) =~= tail);
    assert(seq![] + body =~= body);
}

/// What a header says is what its bytes say.
proof fn header_read(b0: u8, b1: u8, b2: u8, sequence: u8)
    ensures
        le_value(seq![b0, b1, b2, sequence].take(3)) == b0 + b1 * 0x100 + b2 * 0x1_0000,
{
    assert(seq![b0, b1, b2, sequence].take(3) =~= seq![b0, b1, b2]);
    numbers_are_read_low_byte_first(b0, b1, b2, 0, 0, 0, 0, 0);
}

/// A full packet is joined with what follows it, under the sequence byte of
/// the first.
pub proof fn full_packet_is_joined_with_the_next(
    first: Option<u8>,
    sequence: u8,
    so_far: Seq<u8>,
    full: Seq<u8>,
    rest: Seq<u8>,
)
    requires
        full.len() == 0xff_ffff,
        so_far.len() + 0xff_ffff <= 64 * 1024 * 1024,
    ensures
        joined(seq![0xffu8, 0xffu8, 0xffu8, sequence] + full + rest, first, so_far) == joined(
            rest,
            Some(
                match first {
                    Some(number) => number,
                    None => sequence,
                },
            ),
            so_far + full,
        ),
{
    let header = seq![0xffu8, 0xffu8, 0xffu8, sequence];
    let stream = header + full + rest;
    header_read(0xff, 0xff, 0xff, sequence);
    assert(stream =~= header + (full + rest));
    assert(stream.take(4) =~= header);
    assert(stream.skip(4) =~= full + rest);
    assert((full + rest).take(0xff_ffff) =~= full);
    assert((full + rest).skip(0xff_ffff) =~= rest);
}

/// A stream that ends before a packet is the end; one that ends inside a
/// header, a payload or between two packets of one payload is broken, and so
/// is a payload over 64 MiB.
pub proof fn broken_stream_is_refused(
    b0: u8,
    b1: u8,
    b2: u8,
    sequence: u8,
    first: Option<u8>,
    so_far: Seq<u8>,
    rest: Seq<u8>,
)
    ensures
        joined(seq![], None, seq![]).0 == Ok::<Option<(u8, Seq<u8>)>, Fault>(None),
        joined(seq![], Some(sequence), so_far).0 matches Err(fault) && !fault.retryable,
        0 < rest.len() < 4 ==> (joined(rest, first, so_far).0 matches Err(fault)
            && !fault.retryable),
        rest.len() < b0 + b1 * 0x100 + b2 * 0x1_0000 ==> (joined(
            seq![b0, b1, b2, sequence] + rest,
            first,
            so_far,
        ).0 matches Err(fault) && !fault.retryable),
        so_far.len() + b0 + b1 * 0x100 + b2 * 0x1_0000 > 64 * 1024 * 1024 ==> (joined(
            seq![b0, b1, b2, sequence] + rest,
            first,
            so_far,
        ).0 matches Err(fault) && !fault.retryable),
{
    let header = seq![b0, b1, b2, sequence];
    header_read(b0, b1, b2, sequence);
    assert((header + rest).take(4) =~= header);
    assert((header + rest).skip(4) =~= rest);
}

/// A header that comes in on its own says the same: how much is to be read
/// after it, and the sequence byte of the first packet of a payload.
pub proof fn headers_say_how_much_follows(b0: u8, b1: u8, b2: u8, sequence: u8, length: nat)
    ensures
        ({
            let header = seq![b0, b1, b2, sequence];
            let count = (b0 + b1 * 0x100 + b2 * 0x1_0000) as nat;
            &&& length + count <= 64 * 1024 * 1024 ==> announced(length, header) == Ok::<
                nat,
                Fault,
            >(count)
            &&& length + count > 64 * 1024 * 1024 ==> (announced(length, header) matches Err(fault)
                && !fault.retryable)
            &&& opened_by(None, header) == sequence
            &&& forall|first: u8| #[trigger] opened_by(Some(first), header) == first
        }),
        closed_before(None) == Ok::<Option<(u8, Seq<u8>)>, Fault>(None),
        closed_before(Some(sequence)) matches Err(fault) && !fault.retryable,
{
    header_read(b0, b1, b2, sequence);
}

/// A command is one byte, 1 to quit and 3 for a query with its text after it,
/// in a payload numbered zero.
pub proof fn commands_are_one_byte_and_the_text(sql: Seq<char>)
    ensures
        command_bytes(CommandView::Quit) == seq![1u8],
        command_bytes(CommandView::Query(sql)) == seq![3u8] + encode_utf8(sql),
        goodbye() == seq![1u8, 0u8, 0u8, 0u8, 1u8],
        query_request(sql) == packets(0, seq![3u8] + encode_utf8(sql)),
        encode_utf8(sql).len() < 64 * 1024 * 1024 ==> joined(query_request(sql), None, seq![]) == (
            Ok::<Option<(u8, Seq<u8>)>, Fault>(Some((0u8, seq![3u8] + encode_utf8(sql)))),
            Seq::<u8>::empty(),
        ),
{
    let quit = command_bytes(CommandView::Quit);
    short_payload_is_one_packet(0, quit);
    assert(goodbye() =~= seq![1u8, 0u8, 0u8, 0u8, 1u8]);
    let command = command_bytes(CommandView::Query(sql));
    if encode_utf8(sql).len() < 64 * 1024 * 1024 {
        frame_read_back(0, command, seq![]);
        assert(query_request(sql) + seq![] =~= query_request(sql));
    }
}

/// A payload is taken for a command by its first byte: 1 quits, whatever
/// follows, 3 is a query of the text that follows, and any other, or none, is
/// refused for good.
pub proof fn commands_are_told_by_their_first_byte(opening: u8, rest: Seq<u8>)
    ensures
        command_of(seq![1u8] + rest) == Ok::<CommandView, Fault>(CommandView::Quit),
        command_of(seq![3u8] + rest) == Ok::<CommandView, Fault>(
            CommandView::Query(lossy_text(rest)),
        ),
        opening != 1 && opening != 3 ==> (command_of(seq![opening] + rest) matches Err(fault)
            && !fault.retryable),
        command_of(seq![]) matches Err(fault) && !fault.retryable,
{
    assert((seq![3u8] + rest).skip(1) =~= rest);
}

} // verus!
