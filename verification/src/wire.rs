//! The protocol's framing and primitive fields: a three-byte little-endian
//! payload length, a sequence byte, and a payload of fixed integers,
//! length-encoded integers and strings, and NUL-terminated strings. A
//! payload of 16 MiB less one fills a packet exactly and continues in the
//! next; the sequence byte counts the packets of one exchange from zero and
//! starts over at every command.
//!
//! The handshake is in `handshake.rs` and what a query comes back with is
//! in `result.rs`; this file is what both are made of, and the two commands
//! this crate sends, because a command packet is one byte and the text.

use crate::error::{agrees, lasting, Fault};
use crate::error::{protocol_error, TransportError};
use crate::hex::{byte_digits, digit_of};
use crate::text::{encoded_without_zero, from_utf8_lossy, lossy_text, lossy_text_of_text, no_nul};
use vstd::prelude::*;
use vstd::slice::slice_subrange;
use vstd::string::StringExecFns;
use vstd::utf8::encode_utf8;

verus! {

/// The most one packet carries; a longer payload continues in the next.
pub const MAX_PACKET: usize = 0xff_ffff;

/// The most one payload may be, packets joined.
pub const MAX_PAYLOAD: usize = 64 * 1024 * 1024;

/// The client is done.
pub const COM_QUIT: u8 = 0x01;

/// The client runs a statement as text.
pub const COM_QUERY: u8 = 0x03;

// Little-endian integers.

/// 256 to the power of `width`.
pub open spec fn byte_range(width: nat) -> nat
    decreases width,
{
    if width == 0 {
        1
    } else {
        256 * byte_range((width - 1) as nat)
    }
}

/// The low `width` bytes of `value`, the lowest first.
pub open spec fn le_bytes(value: nat, width: nat) -> Seq<u8>
    decreases width,
{
    if width == 0 {
        seq![]
    } else {
        seq![(value % 256) as u8] + le_bytes(value / 256, (width - 1) as nat)
    }
}

/// The number that `bytes` write, the lowest first.
pub open spec fn le_value(bytes: Seq<u8>) -> nat
    decreases bytes.len(),
{
    if bytes.len() == 0 {
        0
    } else {
        bytes[0] as nat + 256 * le_value(bytes.drop_first())
    }
}

/// A number is written in as many bytes as it is given.
pub(crate) proof fn le_bytes_length(value: nat, width: nat)
    ensures
        le_bytes(value, width).len() == width,
    decreases width,
{
    if width > 0 {
        le_bytes_length(value / 256, (width - 1) as nat);
    }
}

/// A number written in enough bytes is read back.
pub(crate) proof fn le_value_of_le_bytes(value: nat, width: nat)
    requires
        value < byte_range(width),
    ensures
        le_value(le_bytes(value, width)) == value,
    decreases width,
{
    if width > 0 {
        let rest = le_bytes(value / 256, (width - 1) as nat);
        assert(value / 256 < byte_range((width - 1) as nat));
        le_value_of_le_bytes(value / 256, (width - 1) as nat);
        assert(le_bytes(value, width).drop_first() =~= rest);
    }
}

/// Bytes write a number in their range.
pub(crate) proof fn le_value_bound(bytes: Seq<u8>)
    ensures
        le_value(bytes) < byte_range(bytes.len()),
    decreases bytes.len(),
{
    if bytes.len() > 0 {
        le_value_bound(bytes.drop_first());
    }
}

/// The ranges of the widths in use.
pub(crate) proof fn byte_ranges()
    ensures
        byte_range(1) == 0x100,
        byte_range(2) == 0x1_0000,
        byte_range(3) == 0x100_0000,
        byte_range(4) == 0x1_0000_0000,
        byte_range(8) == 0x1_0000_0000_0000_0000,
{
    reveal_with_fuel(byte_range, 9);
}

/// Adds `bytes` to the end of `out`.
pub(crate) fn append(out: &mut Vec<u8>, bytes: &[u8])
    ensures
        final(out)@ == old(out)@ + bytes@,
{
    let ghost before = out@;
    out.extend_from_slice(bytes);
    assert(out@ =~= before + bytes@);
}

/// Adds the low `width` bytes of `value` to the end of `out`.
pub(crate) fn append_le(out: &mut Vec<u8>, value: u64, width: usize)
    ensures
        final(out)@ == old(out)@ + le_bytes(value as nat, width as nat),
{
    let ghost before = out@;
    let mut left: u64 = value;
    let mut done: usize = 0;
    while done < width
        invariant
            done <= width,
            before + le_bytes(value as nat, width as nat) =~= out@ + le_bytes(
                left as nat,
                (width - done) as nat,
            ),
        decreases width - done,
    {
        out.push((left % 256) as u8);
        left = left / 256;
        done += 1;
    }
}

/// The number that `bytes` write, the lowest first.
pub(crate) fn le_value_of(bytes: &[u8]) -> (value: u64)
    requires
        bytes@.len() <= 8,
    ensures
        value == le_value(bytes@),
{
    let mut value: u64 = 0;
    let mut at: usize = bytes.len();
    assert(bytes@.skip(at as int) =~= seq![]);
    while at > 0
        invariant
            at <= bytes@.len() <= 8,
            value == le_value(bytes@.skip(at as int)),
        decreases at,
    {
        at -= 1;
        proof {
            assert(bytes@.skip(at as int).drop_first() =~= bytes@.skip(at + 1));
            le_value_bound(bytes@.skip(at as int));
            reveal_with_fuel(byte_range, 9);
        }
        value = value * 256 + bytes[at] as u64;
    }
    assert(bytes@.skip(0) =~= bytes@);
    value
}

// What is written.

/// What a client sends after the login.
#[derive(Clone, Debug, PartialEq, Eq)]
pub enum Command {
    Quit,
    Query(String),
}

/// A command as its text.
pub enum CommandView {
    Quit,
    Query(Seq<char>),
}

impl View for Command {
    type V = CommandView;

    open spec fn view(&self) -> CommandView {
        match self {
            Command::Quit => CommandView::Quit,
            Command::Query(sql) => CommandView::Query(sql@),
        }
    }
}

/// A command as a payload: one byte, and the text of a query.
pub open spec fn command_bytes(command: CommandView) -> Seq<u8> {
    match command {
        CommandView::Quit => seq![COM_QUIT],
        CommandView::Query(sql) => seq![COM_QUERY] + encode_utf8(sql),
    }
}

/// The command that a payload carries.
pub open spec fn command_of(payload: Seq<u8>) -> Result<CommandView, Fault> {
    if payload.len() == 0 {
        Err(lasting("an empty command packet"@))
    } else if payload[0] == COM_QUIT {
        Ok(CommandView::Quit)
    } else if payload[0] == COM_QUERY {
        Ok(CommandView::Query(lossy_text(payload.skip(1))))
    } else {
        Err(
            lasting(
                "command "@ + byte_text(payload[0]) + " is not one this crate serves"@,
            ),
        )
    }
}

/// `byte` as `0x` and its two hexadecimal digits.
pub open spec fn byte_text(byte: u8) -> Seq<char> {
    "0x"@ + byte_digits(byte)
}

/// Adds `byte` to `text` as `0x` and its two hexadecimal digits.
fn push_byte_text(text: &mut String, byte: u8)
    ensures
        final(text)@ == old(text)@ + byte_text(byte),
{
    let ghost before = text@;
    text.append("0x");
    text.push(digit_of(byte / 16));
    text.push(digit_of(byte % 16));
    assert(text@ =~= before + byte_text(byte));
}

/// `command` as a payload.
#[must_use]
pub fn encode_command(command: &Command) -> (payload: Vec<u8>)
    ensures
        payload@ == command_bytes(command@),
{
    let mut out: Vec<u8> = Vec::new();
    match command {
        Command::Quit => out.push(COM_QUIT),
        Command::Query(sql) => {
            out.push(COM_QUERY);
            append(&mut out, sql.as_str().as_bytes());
        },
    }
    assert(out@ =~= command_bytes(command@));
    out
}

/// The command a payload carries.
///
/// # Errors
/// An empty payload, or a command this crate does not serve.
pub fn decode_command(payload: &[u8]) -> (result: Result<Command, TransportError>)
    ensures
        agrees(result, command_of(payload@)),
{
    if payload.len() == 0 {
        return Err(protocol_error("an empty command packet"));
    }
    let opening: u8 = payload[0];
    if opening == COM_QUIT {
        Ok(Command::Quit)
    } else if opening == COM_QUERY {
        let sql = slice_subrange(payload, 1, payload.len());
        assert(sql@ =~= payload@.skip(1));
        Ok(Command::Query(from_utf8_lossy(sql)))
    } else {
        let mut message = "command ".to_owned();
        push_byte_text(&mut message, opening);
        message.append(" is not one this crate serves");
        Err(protocol_error(message.as_str()))
    }
}

/// The sequence byte after `sequence`.
pub open spec fn next_sequence(sequence: u8) -> u8 {
    ((sequence + 1) % 256) as u8
}

/// One packet: its length in three bytes, its sequence byte, and what it
/// carries.
pub open spec fn packet(sequence: u8, chunk: Seq<u8>) -> Seq<u8> {
    le_bytes(chunk.len(), 3) + seq![sequence] + chunk
}

/// `payload` as packets: full ones while more than fits one is left, then a
/// short one that ends them, which may be empty.
pub open spec fn packets(sequence: u8, payload: Seq<u8>) -> Seq<u8>
    decreases payload.len(),
{
    if payload.len() < MAX_PACKET {
        packet(sequence, payload)
    } else {
        packet(sequence, payload.take(MAX_PACKET as int)) + packets(
            next_sequence(sequence),
            payload.skip(MAX_PACKET as int),
        )
    }
}

/// The sequence byte after the packets of a payload of `length` bytes.
pub open spec fn sequence_after(sequence: u8, length: nat) -> u8 {
    ((sequence + length / (MAX_PACKET as nat) + 1) % 256) as u8
}

/// A full packet counts one.
pub(crate) proof fn full_packet_counts(sequence: u8, length: nat)
    requires
        length >= MAX_PACKET,
    ensures
        sequence_after(sequence, length) == sequence_after(
            next_sequence(sequence),
            (length - MAX_PACKET) as nat,
        ),
{
    let less = (length - MAX_PACKET) as nat;
    let count = less / (MAX_PACKET as nat);
    assert(length / (MAX_PACKET as nat) == count + 1);
    assert((sequence + (count + 1) + 1) % 256 == ((sequence + 1) % 256 + count + 1) % 256);
}

/// A full packet leaves the packets of what is left.
proof fn full_packet(sequence: u8, payload: Seq<u8>, at: int, out: Seq<u8>)
    requires
        0 <= at,
        payload.len() - at >= MAX_PACKET,
    ensures
        out + packets(sequence, payload.skip(at)) == out + packet(
            sequence,
            payload.subrange(at, at + MAX_PACKET),
        ) + packets(next_sequence(sequence), payload.skip(at + MAX_PACKET)),
{
    let rest = payload.skip(at);
    assert(payload.subrange(at, at + MAX_PACKET) =~= rest.take(MAX_PACKET as int));
    assert(rest.skip(MAX_PACKET as int) =~= payload.skip(at + MAX_PACKET));
    let one = packet(sequence, rest.take(MAX_PACKET as int));
    let others = packets(next_sequence(sequence), payload.skip(at + MAX_PACKET));
    assert(out + (one + others) =~= out + one + others);
}

/// `payload` as one packet or more, `sequence` counting them.
#[must_use]
pub fn frame(sequence: &mut u8, payload: &[u8]) -> (out: Vec<u8>)
    ensures
        out@ == packets(*old(sequence), payload@),
        *final(sequence) == sequence_after(*old(sequence), payload@.len()),
{
    let ghost first = *sequence;
    let mut out: Vec<u8> = Vec::new();
    let mut at: usize = 0;
    assert(payload@.skip(0) =~= payload@);
    while payload.len() - at >= MAX_PACKET
        invariant
            at <= payload@.len(),
            packets(first, payload@) == out@ + packets(*sequence, payload@.skip(at as int)),
            sequence_after(first, payload@.len()) == sequence_after(
                *sequence,
                (payload@.len() - at) as nat,
            ),
        decreases payload@.len() - at,
    {
        let chunk = slice_subrange(payload, at, at + MAX_PACKET);
        let ghost before = out@;
        proof {
            full_packet(*sequence, payload@, at as int, before);
            full_packet_counts(*sequence, (payload@.len() - at) as nat);
        }
        append_le(&mut out, MAX_PACKET as u64, 3);
        out.push(*sequence);
        append(&mut out, chunk);
        assert(out@ =~= before + packet(*sequence, chunk@));
        *sequence = sequence.wrapping_add(1);
        at += MAX_PACKET;
    }
    let chunk = slice_subrange(payload, at, payload.len());
    let ghost before = out@;
    assert(chunk@ =~= payload@.skip(at as int));
    append_le(&mut out, chunk.len() as u64, 3);
    out.push(*sequence);
    append(&mut out, chunk);
    assert(out@ =~= before + packet(*sequence, chunk@));
    *sequence = sequence.wrapping_add(1);
    out
}

/// `payload` as the packets that follow a packet numbered `seen`.
#[must_use]
pub fn frame_after(seen: u8, payload: &[u8]) -> (out: Vec<u8>)
    ensures
        out@ == packets(next_sequence(seen), payload@),
{
    let mut sequence: u8 = if seen == 255 { 0 } else { seen + 1 };
    frame(&mut sequence, payload)
}

/// A count as a header's three bytes, the most they hold where it is more.
pub open spec fn header_length(count: nat) -> Seq<u8> {
    le_bytes(
        if count <= MAX_PACKET {
            count
        } else {
            MAX_PACKET as nat
        },
        3,
    )
}

/// `count` as the header's three bytes, little-endian.
#[must_use]
pub fn int24(count: usize) -> (bytes: [u8; 3])
    ensures
        bytes@ == header_length(count as nat),
{
    let count: usize = if count <= MAX_PACKET { count } else { MAX_PACKET };
    let bytes = [(count % 256) as u8, (count / 256 % 256) as u8, (count / 256 / 256 % 256) as u8];
    proof {
        reveal_with_fuel(le_bytes, 4);
        assert(bytes@ =~= le_bytes(count as nat, 3));
    }
    bytes
}

/// `value` as a length-encoded integer: one byte where it is small, else a
/// byte that says how many follow.
pub open spec fn lenenc(value: u64) -> Seq<u8> {
    if value <= 0xfa {
        seq![value as u8]
    } else if value <= 0xffff {
        seq![0xfcu8] + le_bytes(value as nat, 2)
    } else if value <= 0xff_ffff {
        seq![0xfdu8] + le_bytes(value as nat, 3)
    } else {
        seq![0xfeu8] + le_bytes(value as nat, 8)
    }
}

/// `bytes` behind its length-encoded length.
pub open spec fn lenenc_string(bytes: Seq<u8>) -> Seq<u8> {
    lenenc(bytes.len() as u64) + bytes
}

/// `text` and the NUL that ends it.
pub open spec fn ended_string(text: Seq<char>) -> Seq<u8> {
    encode_utf8(text).push(0)
}

/// `value` as a length-encoded integer.
pub fn lenenc_int(out: &mut Vec<u8>, value: u64)
    ensures
        final(out)@ == old(out)@ + lenenc(value),
{
    let ghost before = out@;
    if value <= 0xfa {
        out.push(value as u8);
    } else if value <= 0xffff {
        out.push(0xfc);
        append_le(out, value, 2);
    } else if value <= 0xff_ffff {
        out.push(0xfd);
        append_le(out, value, 3);
    } else {
        out.push(0xfe);
        append_le(out, value, 8);
    }
    assert(out@ =~= before + lenenc(value));
}

/// `bytes` behind its length-encoded length.
pub fn lenenc_bytes(out: &mut Vec<u8>, bytes: &[u8])
    ensures
        final(out)@ == old(out)@ + lenenc_string(bytes@),
{
    let ghost before = out@;
    lenenc_int(out, bytes.len() as u64);
    append(out, bytes);
    assert(out@ =~= before + lenenc_string(bytes@));
}

/// `text` followed by the NUL that ends a wire string.
pub fn cstring(out: &mut Vec<u8>, text: &str)
    ensures
        final(out)@ == old(out)@ + ended_string(text@),
{
    let ghost before = out@;
    append(out, text.as_bytes());
    out.push(0);
    assert(out@ =~= before + ended_string(text@));
}

// What is read.

/// What reading a field gives, and the bytes that are left after it.
pub type Field<T> = (Result<T, Fault>, Seq<u8>);

/// The next `count` bytes; none are taken where fewer are left.
pub open spec fn read_bytes(bytes: Seq<u8>, count: nat) -> Field<Seq<u8>> {
    if count <= bytes.len() {
        (Ok(bytes.take(count as int)), bytes.skip(count as int))
    } else {
        (Err(lasting("a field that runs past the packet"@)), bytes)
    }
}

/// The next byte.
pub open spec fn read_byte(bytes: Seq<u8>) -> Field<u8> {
    match read_bytes(bytes, 1) {
        (Ok(taken), rest) => (Ok(taken[0]), rest),
        (Err(fault), rest) => (Err(fault), rest),
    }
}

/// The next two bytes as a number.
pub open spec fn read_int16(bytes: Seq<u8>) -> Field<u16> {
    match read_bytes(bytes, 2) {
        (Ok(taken), rest) => (Ok(le_value(taken) as u16), rest),
        (Err(fault), rest) => (Err(fault), rest),
    }
}

/// The next four bytes as a number.
pub open spec fn read_int32(bytes: Seq<u8>) -> Field<u32> {
    match read_bytes(bytes, 4) {
        (Ok(taken), rest) => (Ok(le_value(taken) as u32), rest),
        (Err(fault), rest) => (Err(fault), rest),
    }
}

/// How many bytes follow the `opening` byte of a length-encoded integer.
pub open spec fn lenenc_width(opening: u8) -> nat {
    if opening == 0xfc {
        2
    } else if opening == 0xfd {
        3
    } else if opening == 0xfe {
        8
    } else {
        0
    }
}

/// The next length-encoded integer. Where it breaks off, or its opening byte
/// opens none, that byte is still taken.
pub open spec fn read_lenenc(bytes: Seq<u8>) -> Field<u64> {
    match read_byte(bytes) {
        (Err(fault), rest) => (Err(fault), rest),
        (Ok(opening), rest) => if opening <= 0xfa {
            (Ok(opening as u64), rest)
        } else if lenenc_width(opening) == 0 {
            (
                Err(lasting(byte_text(opening) + " does not open a length-encoded integer"@)),
                rest,
            )
        } else {
            match read_bytes(rest, lenenc_width(opening)) {
                (Ok(taken), left) => (Ok(le_value(taken) as u64), left),
                (Err(fault), left) => (Err(fault), left),
            }
        },
    }
}

/// The next length-encoded string, as the text it carries. Where the string
/// breaks off, its length is still taken.
pub open spec fn read_lenenc_str(bytes: Seq<u8>) -> Field<Seq<char>> {
    match read_lenenc(bytes) {
        (Err(fault), rest) => (Err(fault), rest),
        (Ok(length), rest) => if length > usize::MAX {
            (Err(lasting("a string longer than memory"@)), rest)
        } else {
            match read_bytes(rest, length as nat) {
                (Ok(taken), left) => (Ok(lossy_text(taken)), left),
                (Err(fault), left) => (Err(fault), left),
            }
        },
    }
}

/// How many bytes stand before the first NUL, or all where there is none.
pub open spec fn before_nul(bytes: Seq<u8>) -> nat
    decreases bytes.len(),
{
    if bytes.len() == 0 || bytes[0] == 0 {
        0
    } else {
        1 + before_nul(bytes.drop_first())
    }
}

/// The next NUL-terminated string, as the text it carries; nothing is taken
/// where there is no NUL.
pub open spec fn read_cstring(bytes: Seq<u8>) -> Field<Seq<char>> {
    let end = before_nul(bytes);
    if end < bytes.len() {
        (Ok(lossy_text(bytes.take(end as int))), bytes.skip(end as int + 1))
    } else {
        (Err(lasting("a string that never ends"@)), bytes)
    }
}

/// What stands before the first NUL has none.
proof fn before_nul_found(bytes: Seq<u8>)
    ensures
        before_nul(bytes) <= bytes.len(),
        before_nul(bytes) < bytes.len() ==> bytes[before_nul(bytes) as int] == 0,
        forall|i: int| 0 <= i < before_nul(bytes) ==> bytes[i] != 0,
    decreases bytes.len(),
{
    if bytes.len() > 0 && bytes[0] != 0 {
        let rest = bytes.drop_first();
        before_nul_found(rest);
        assert forall|i: int| 0 <= i < before_nul(bytes) implies bytes[i] != 0 by {
            if i > 0 {
                assert(rest[i - 1] != 0);
            }
        }
    }
}

/// The first NUL stands where everything before it is not one.
pub(crate) proof fn before_nul_is(bytes: Seq<u8>, at: nat)
    requires
        at <= bytes.len(),
        at < bytes.len() ==> bytes[at as int] == 0,
        forall|i: int| 0 <= i < at ==> bytes[i] != 0,
    ensures
        before_nul(bytes) == at,
{
    before_nul_found(bytes);
}

/// Reads a payload's fields in order.
pub struct Cursor<'a> {
    bytes: &'a [u8],
    at: usize,
}

impl<'a> View for Cursor<'a> {
    type V = Seq<u8>;

    /// The bytes that are left to read.
    closed spec fn view(&self) -> Seq<u8> {
        self.bytes@.skip(self.at as int)
    }
}

impl<'a> Cursor<'a> {
    #[verifier::type_invariant]
    spec fn within(&self) -> bool {
        self.at <= self.bytes@.len()
    }

    /// A cursor at the start of `bytes`.
    #[must_use]
    pub fn new(bytes: &'a [u8]) -> (cursor: Self)
        ensures
            cursor@ == bytes@,
    {
        assert(bytes@.skip(0) =~= bytes@);
        Cursor { bytes, at: 0 }
    }

    /// True when nothing remains.
    #[must_use]
    pub fn is_empty(&self) -> (empty: bool)
        ensures
            empty == (self@.len() == 0),
    {
        proof {
            use_type_invariant(self);
        }
        self.at >= self.bytes.len()
    }

    /// The next `count` bytes.
    ///
    /// # Errors
    /// Fewer than `count` bytes remain.
    pub fn take(&mut self, count: usize) -> (result: Result<&'a [u8], TransportError>)
        ensures
            agrees(result, read_bytes(old(self)@, count as nat).0),
            final(self)@ == read_bytes(old(self)@, count as nat).1,
    {
        proof {
            use_type_invariant(&*self);
        }
        if count > self.bytes.len() - self.at {
            return Err(protocol_error("a field that runs past the packet"));
        }
        let taken = slice_subrange(self.bytes, self.at, self.at + count);
        assert(taken@ =~= self@.take(count as int));
        assert(self.bytes@.skip(self.at + count) =~= self@.skip(count as int));
        self.at = self.at + count;
        Ok(taken)
    }

    /// Everything that remains.
    #[must_use]
    pub fn rest(&mut self) -> (rest: &'a [u8])
        ensures
            rest@ == old(self)@,
            final(self)@.len() == 0,
    {
        proof {
            use_type_invariant(&*self);
        }
        let rest = slice_subrange(self.bytes, self.at, self.bytes.len());
        assert(rest@ =~= self@);
        self.at = self.bytes.len();
        rest
    }

    /// Past the next `count` bytes.
    ///
    /// # Errors
    /// Fewer than `count` bytes remain.
    pub fn skip(&mut self, count: usize) -> (result: Result<(), TransportError>)
        ensures
            match (result, read_bytes(old(self)@, count as nat).0) {
                (Ok(_), Ok(_)) => true,
                (Err(error), Err(fault)) => error@ == fault,
                _ => false,
            },
            final(self)@ == read_bytes(old(self)@, count as nat).1,
    {
        match self.take(count) {
            Ok(_) => Ok(()),
            Err(error) => Err(error),
        }
    }

    /// The next byte.
    ///
    /// # Errors
    /// Nothing remains.
    pub fn byte(&mut self) -> (result: Result<u8, TransportError>)
        ensures
            agrees(result, read_byte(old(self)@).0),
            final(self)@ == read_byte(old(self)@).1,
    {
        let taken = self.take(1)?;
        Ok(taken[0])
    }

    /// The next byte without taking it.
    #[must_use]
    pub fn peek(&self) -> (next: Option<u8>)
        ensures
            next == (if self@.len() == 0 { None } else { Some(self@[0]) }),
    {
        proof {
            use_type_invariant(self);
        }
        if self.at < self.bytes.len() {
            Some(self.bytes[self.at])
        } else {
            None
        }
    }

    /// The next little-endian u16.
    ///
    /// # Errors
    /// Fewer than two bytes remain.
    pub fn int16(&mut self) -> (result: Result<u16, TransportError>)
        ensures
            agrees(result, read_int16(old(self)@).0),
            final(self)@ == read_int16(old(self)@).1,
    {
        let taken = self.take(2)?;
        proof {
            byte_ranges();
            le_value_bound(taken@);
        }
        Ok(le_value_of(taken) as u16)
    }

    /// The next little-endian u32.
    ///
    /// # Errors
    /// Fewer than four bytes remain.
    pub fn int32(&mut self) -> (result: Result<u32, TransportError>)
        ensures
            agrees(result, read_int32(old(self)@).0),
            final(self)@ == read_int32(old(self)@).1,
    {
        let taken = self.take(4)?;
        proof {
            byte_ranges();
            le_value_bound(taken@);
        }
        Ok(le_value_of(taken) as u32)
    }

    /// The next length-encoded integer.
    ///
    /// # Errors
    /// Nothing remains, the integer breaks off, or its first byte is the
    /// NULL marker or one the encoding does not use.
    pub fn lenenc_int(&mut self) -> (result: Result<u64, TransportError>)
        ensures
            agrees(result, read_lenenc(old(self)@).0),
            final(self)@ == read_lenenc(old(self)@).1,
    {
        let opening: u8 = self.byte()?;
        let width: usize = if opening <= 0xfa {
            return Ok(opening as u64);
        } else if opening == 0xfc {
            2
        } else if opening == 0xfd {
            3
        } else if opening == 0xfe {
            8
        } else {
            let mut message = String::new();
            push_byte_text(&mut message, opening);
            message.append(" does not open a length-encoded integer");
            assert(message@ =~= byte_text(opening) + " does not open a length-encoded integer"@);
            return Err(protocol_error(message.as_str()));
        };
        let taken = self.take(width)?;
        Ok(le_value_of(taken))
    }

    /// The next length-encoded string, lossily UTF-8.
    ///
    /// # Errors
    /// The length or the string breaks off.
    pub fn lenenc_str(&mut self) -> (result: Result<String, TransportError>)
        ensures
            agrees(result, read_lenenc_str(old(self)@).0),
            final(self)@ == read_lenenc_str(old(self)@).1,
    {
        let length: u64 = self.lenenc_int()?;
        if length > usize::MAX as u64 {
            return Err(protocol_error("a string longer than memory"));
        }
        let taken = self.take(length as usize)?;
        Ok(from_utf8_lossy(taken))
    }

    /// The next NUL-terminated string, lossily UTF-8.
    ///
    /// # Errors
    /// No NUL before the end.
    pub fn cstring(&mut self) -> (result: Result<String, TransportError>)
        ensures
            agrees(result, read_cstring(old(self)@).0),
            final(self)@ == read_cstring(old(self)@).1,
    {
        proof {
            use_type_invariant(&*self);
        }
        let mut end: usize = self.at;
        while end < self.bytes.len() && self.bytes[end] != 0
            invariant
                self.at <= end <= self.bytes@.len(),
                forall|i: int| self.at <= i < end ==> self.bytes@[i] != 0,
            decreases self.bytes@.len() - end,
        {
            end += 1;
        }
        proof {
            before_nul_is(self@, (end - self.at) as nat);
        }
        if end >= self.bytes.len() {
            return Err(protocol_error("a string that never ends"));
        }
        let taken = slice_subrange(self.bytes, self.at, end);
        assert(taken@ =~= self@.take(end - self.at));
        assert(self.bytes@.skip(end + 1) =~= self@.skip(end - self.at + 1));
        self.at = end + 1;
        Ok(from_utf8_lossy(taken))
    }
}

// Packets joined into a payload.

/// A payload as far as its packets have come: the sequence byte of the first
/// of them, and what they carried.
pub struct PacketReader {
    pub first: Option<u8>,
    pub payload: Vec<u8>,
}

/// What a peer that closed before a header leaves: nothing where no packet
/// had come, and an error inside a payload.
pub open spec fn closed_before(first: Option<u8>) -> Result<Option<(u8, Seq<u8>)>, Fault> {
    if first is None {
        Ok(None)
    } else {
        Err(lasting("the peer closed inside a packet"@))
    }
}

/// How many bytes the packet behind `header` carries, where a payload of
/// `length` bytes may still grow by them.
pub open spec fn announced(length: nat, header: Seq<u8>) -> Result<nat, Fault> {
    if length + le_value(header.take(3)) > MAX_PAYLOAD {
        Err(lasting("a payload over what Xmip will read"@))
    } else {
        Ok(le_value(header.take(3)))
    }
}

/// The sequence byte of a payload whose next header is `header`.
pub open spec fn opened_by(first: Option<u8>, header: Seq<u8>) -> u8 {
    match first {
        Some(sequence) => sequence,
        None => header[3],
    }
}

impl PacketReader {
    /// Before the first packet of a payload.
    #[must_use]
    pub fn new() -> (reader: Self)
        ensures
            reader.first is None,
            reader.payload@.len() == 0,
    {
        PacketReader { first: None, payload: Vec::new() }
    }

    /// The peer closed before a header: `None` where no packet had come.
    ///
    /// # Errors
    /// The payload is not complete.
    pub fn closed(&self) -> (result: Result<Option<(u8, Vec<u8>)>, TransportError>)
        ensures
            match (result, closed_before(self.first)) {
                (Ok(None), Ok(None)) => true,
                (Err(error), Err(fault)) => error@ == fault,
                _ => false,
            },
    {
        match self.first {
            None => Ok(None),
            Some(_) => Err(protocol_error("the peer closed inside a packet")),
        }
    }

    /// A header came: how many bytes to read after it.
    ///
    /// # Errors
    /// The payload would be over [`MAX_PAYLOAD`].
    pub fn header(&mut self, header: &[u8]) -> (result: Result<usize, TransportError>)
        requires
            header@.len() == 4,
        ensures
            match (result, announced(old(self).payload@.len(), header@)) {
                (Ok(length), Ok(expected)) => length == expected,
                (Err(error), Err(fault)) => error@ == fault,
                _ => false,
            },
            final(self).first == Some(opened_by(old(self).first, header@)),
            final(self).payload@ == old(self).payload@,
    {
        if self.first.is_none() {
            self.first = Some(header[3]);
        }
        let length_bytes = slice_subrange(header, 0, 3);
        proof {
            assert(length_bytes@ =~= header@.take(3));
            byte_ranges();
            le_value_bound(length_bytes@);
        }
        let length: usize = le_value_of(length_bytes) as usize;
        if self.payload.len() > MAX_PAYLOAD || length > MAX_PAYLOAD - self.payload.len() {
            return Err(protocol_error("a payload over what Xmip will read"));
        }
        Ok(length)
    }

    /// The bytes of a packet came: the payload and its sequence byte where
    /// this packet ends it, `None` where it continues in the next.
    pub fn body(&mut self, bytes: &[u8]) -> (complete: Option<(u8, Vec<u8>)>)
        requires
            old(self).first is Some,
        ensures
            complete is Some <==> bytes@.len() < MAX_PACKET,
            complete matches Some((sequence, payload)) ==> {
                &&& old(self).first == Some(sequence)
                &&& payload@ == old(self).payload@ + bytes@
                &&& final(self).first is None
                &&& final(self).payload@.len() == 0
            },
            complete is None ==> {
                &&& final(self).first == old(self).first
                &&& final(self).payload@ == old(self).payload@ + bytes@
            },
    {
        append(&mut self.payload, bytes);
        if bytes.len() >= MAX_PACKET {
            return None;
        }
        let mut payload: Vec<u8> = Vec::new();
        std::mem::swap(&mut payload, &mut self.payload);
        match self.first {
            Some(sequence) => {
                self.first = None;
                Some((sequence, payload))
            },
            None => None,
        }
    }
}

/// The payload that `stream` goes on with, where its first packets came with
/// the sequence byte `first` and carried `payload`; and what of the stream is
/// left. A stream that breaks off is used up.
pub open spec fn joined(
    stream: Seq<u8>,
    first: Option<u8>,
    payload: Seq<u8>,
) -> Field<Option<(u8, Seq<u8>)>>
    decreases stream.len(),
{
    if stream.len() == 0 {
        (closed_before(first), stream)
    } else if stream.len() < 4 {
        (Err(lasting("a packet header that breaks off"@)), seq![])
    } else {
        let header = stream.take(4);
        let rest = stream.skip(4);
        match announced(payload.len(), header) {
            Err(fault) => (Err(fault), rest),
            Ok(length) => if rest.len() < length {
                (Err(lasting("a packet payload that breaks off"@)), seq![])
            } else {
                let sequence = opened_by(first, header);
                let grown = payload + rest.take(length as int);
                if length < MAX_PACKET {
                    (Ok(Some((sequence, grown))), rest.skip(length as int))
                } else {
                    joined(rest.skip(length as int), Some(sequence), grown)
                }
            },
        }
    }
}

/// One payload from the front of a byte stream that is all there,
/// continuation packets joined: its first sequence byte and bytes, or `None`
/// when the stream ended before a header. The stream is left behind what was
/// read.
///
/// # Errors
/// A stream that breaks off, or a payload over [`MAX_PAYLOAD`].
pub fn read_packet(stream: &mut &[u8]) -> (result: Result<Option<(u8, Vec<u8>)>, TransportError>)
    ensures
        match (result, joined(old(stream)@, None, seq![]).0) {
            (Ok(None), Ok(None)) => true,
            (Ok(Some((sequence, payload))), Ok(Some((first, bytes)))) => sequence == first
                && payload@ == bytes,
            (Err(error), Err(fault)) => error@ == fault,
            _ => false,
        },
        final(stream)@ == joined(old(stream)@, None, seq![]).1,
{
    let whole: &[u8] = *stream;
    let mut reader = PacketReader::new();
    let mut at: usize = 0;
    assert(whole@.skip(0) =~= whole@);
    assert(reader.payload@ =~= seq![]);
    loop
        invariant
            at <= whole@.len(),
            old(stream)@ == whole@,
            joined(whole@, None, seq![]) == joined(
                whole@.skip(at as int),
                reader.first,
                reader.payload@,
            ),
        decreases whole@.len() - at,
    {
        let left: usize = whole.len() - at;
        if left == 0 {
            *stream = slice_subrange(whole, at, at);
            assert(stream@ =~= whole@.skip(at as int));
            return reader.closed();
        }
        if left < 4 {
            *stream = slice_subrange(whole, whole.len(), whole.len());
            return Err(protocol_error("a packet header that breaks off"));
        }
        let header = slice_subrange(whole, at, at + 4);
        assert(header@ =~= whole@.skip(at as int).take(4));
        assert(whole@.skip(at as int).skip(4) =~= whole@.skip(at + 4));
        let length: usize = match reader.header(header) {
            Ok(length) => length,
            Err(error) => {
                *stream = slice_subrange(whole, at + 4, whole.len());
                assert(stream@ =~= whole@.skip(at + 4));
                return Err(error);
            },
        };
        if left - 4 < length {
            *stream = slice_subrange(whole, whole.len(), whole.len());
            return Err(protocol_error("a packet payload that breaks off"));
        }
        let body = slice_subrange(whole, at + 4, at + 4 + length);
        assert(body@ =~= whole@.skip(at + 4).take(length as int));
        assert(whole@.skip(at + 4).skip(length as int) =~= whole@.skip(at + 4 + length));
        at = at + 4 + length;
        if let Some(complete) = reader.body(body) {
            *stream = slice_subrange(whole, at, whole.len());
            assert(stream@ =~= whole@.skip(at as int));
            return Ok(Some(complete));
        }
    }
}

// Reading gives back what was written.

/// What stands before `rest` is taken, and `rest` is left.
pub proof fn bytes_read_back(bytes: Seq<u8>, rest: Seq<u8>)
    ensures
        read_bytes(bytes + rest, bytes.len()) == (Ok::<Seq<u8>, Fault>(bytes), rest),
{
    assert((bytes + rest).take(bytes.len() as int) =~= bytes);
    assert((bytes + rest).skip(bytes.len() as int) =~= rest);
}

/// A two-byte number is read back.
pub proof fn int16_read_back(value: u16, rest: Seq<u8>)
    ensures
        read_int16(le_bytes(value as nat, 2) + rest) == (Ok::<u16, Fault>(value), rest),
{
    byte_ranges();
    le_bytes_length(value as nat, 2);
    le_value_of_le_bytes(value as nat, 2);
    bytes_read_back(le_bytes(value as nat, 2), rest);
}

/// A four-byte number is read back.
pub proof fn int32_read_back(value: u32, rest: Seq<u8>)
    ensures
        read_int32(le_bytes(value as nat, 4) + rest) == (Ok::<u32, Fault>(value), rest),
{
    byte_ranges();
    le_bytes_length(value as nat, 4);
    le_value_of_le_bytes(value as nat, 4);
    bytes_read_back(le_bytes(value as nat, 4), rest);
}

/// A byte is read back.
pub proof fn byte_read_back(byte: u8, rest: Seq<u8>)
    ensures
        read_byte(seq![byte] + rest) == (Ok::<u8, Fault>(byte), rest),
{
    bytes_read_back(seq![byte], rest);
}

/// A length-encoded integer is read back, whatever its size.
pub proof fn lenenc_read_back(value: u64, rest: Seq<u8>)
    ensures
        read_lenenc(lenenc(value) + rest) == (Ok::<u64, Fault>(value), rest),
{
    byte_ranges();
    if value <= 0xfa {
        byte_read_back(value as u8, rest);
    } else {
        let opening: u8 = if value <= 0xffff {
            0xfc
        } else if value <= 0xff_ffff {
            0xfd
        } else {
            0xfe
        };
        let number = le_bytes(value as nat, lenenc_width(opening));
        le_bytes_length(value as nat, lenenc_width(opening));
        le_value_of_le_bytes(value as nat, lenenc_width(opening));
        assert(lenenc(value) + rest =~= seq![opening] + (number + rest));
        byte_read_back(opening, number + rest);
        bytes_read_back(number, rest);
    }
}

/// Text behind its length is read back.
pub proof fn lenenc_str_read_back(text: Seq<char>, rest: Seq<u8>)
    requires
        encode_utf8(text).len() <= usize::MAX,
    ensures
        read_lenenc_str(lenenc_string(encode_utf8(text)) + rest) == (
            Ok::<Seq<char>, Fault>(text),
            rest,
        ),
{
    let bytes = encode_utf8(text);
    lossy_text_of_text(text);
    assert(lenenc_string(bytes) + rest =~= lenenc(bytes.len() as u64) + (bytes + rest));
    lenenc_read_back(bytes.len() as u64, bytes + rest);
    bytes_read_back(bytes, rest);
}

/// Text without a NUL is read back from before the NUL that ends it.
pub proof fn cstring_read_back(text: Seq<char>, rest: Seq<u8>)
    requires
        no_nul(text),
    ensures
        read_cstring(ended_string(text) + rest) == (Ok::<Seq<char>, Fault>(text), rest),
{
    let bytes = encode_utf8(text);
    let all = ended_string(text) + rest;
    lossy_text_of_text(text);
    encoded_without_zero(text);
    assert forall|i: int| 0 <= i < bytes.len() implies all[i] != 0 by {
        assert(all[i] == bytes[i]);
    }
    before_nul_is(all, bytes.len());
    assert(all.take(bytes.len() as int) =~= bytes);
    assert(all.skip(bytes.len() as int + 1) =~= rest);
}

/// A command is read back.
pub proof fn command_read_back(command: CommandView)
    ensures
        command_of(command_bytes(command)) == Ok::<CommandView, Fault>(command),
{
    if let CommandView::Query(sql) = command {
        lossy_text_of_text(sql);
        assert(command_bytes(command).skip(1) =~= encode_utf8(sql));
    }
}

/// The packets of what is left of a payload complete it, and what follows
/// them is left.
proof fn packets_complete(
    sequence: u8,
    left: Seq<u8>,
    tail: Seq<u8>,
    first: Option<u8>,
    payload: Seq<u8>,
)
    requires
        payload.len() + left.len() <= MAX_PAYLOAD,
    ensures
        joined(packets(sequence, left) + tail, first, payload) == (
            Ok::<Option<(u8, Seq<u8>)>, Fault>(
                Some((if first is Some { first->0 } else { sequence }, payload + left)),
            ),
            tail,
        ),
    decreases left.len(),
{
    let full = left.len() >= MAX_PACKET;
    let chunk = if full {
        left.take(MAX_PACKET as int)
    } else {
        left
    };
    let others = if full {
        packets(next_sequence(sequence), left.skip(MAX_PACKET as int))
    } else {
        seq![]
    };
    let length = le_bytes(chunk.len(), 3);
    let stream = packets(sequence, left) + tail;
    byte_ranges();
    le_bytes_length(chunk.len(), 3);
    le_value_of_le_bytes(chunk.len(), 3);
    assert(stream =~= (length + seq![sequence]) + (chunk + (others + tail)));
    assert(stream.take(4) =~= length + seq![sequence]);
    assert(stream.take(4).take(3) =~= length);
    assert(stream.skip(4) =~= chunk + (others + tail));
    assert(stream.skip(4).take(chunk.len() as int) =~= chunk);
    assert(stream.skip(4).skip(chunk.len() as int) =~= others + tail);
    if full {
        let started = Some(opened_by(first, stream.take(4)));
        packets_complete(
            next_sequence(sequence),
            left.skip(MAX_PACKET as int),
            tail,
            started,
            payload + chunk,
        );
        assert(payload + chunk + left.skip(MAX_PACKET as int) =~= payload + left);
    } else {
        assert(others + tail =~= tail);
    }
}

/// A payload of no more than [`MAX_PAYLOAD`] bytes is read back from its
/// packets, with the sequence byte of the first, and what follows it in the
/// stream is left.
pub proof fn frame_read_back(sequence: u8, payload: Seq<u8>, tail: Seq<u8>)
    requires
        payload.len() <= MAX_PAYLOAD,
    ensures
        joined(packets(sequence, payload) + tail, None, seq![]) == (
            Ok::<Option<(u8, Seq<u8>)>, Fault>(Some((sequence, payload))),
            tail,
        ),
{
    packets_complete(sequence, payload, tail, None, seq![]);
    assert(seq![] + payload =~= payload);
}

} // verus!
