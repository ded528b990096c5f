//! What holds of the fields of a payload, whoever wrote them.

use crate::error::Fault;
use crate::text::{lossy_text, repaired_text};
use crate::wire::{
    before_nul_is, bytes_read_back, byte_read_back, ended_string, header_length, le_bytes, le_value,
    lenenc, lenenc_string, read_byte, read_bytes, read_cstring, read_int16, read_int32,
    read_lenenc, read_lenenc_str,
};
use vstd::prelude::*;
use vstd::utf8::{decode_utf8, encode_utf8, valid_utf8};

verus! {

/// A number is written in its bytes to the base of 256, the lowest first.
pub proof fn numbers_are_written_low_byte_first(value: nat)
    ensures
        le_bytes(value, 2) == seq![(value % 256) as u8, (value / 0x100 % 256) as u8],
        le_bytes(value, 3) == seq![
            (value % 256) as u8,
            (value / 0x100 % 256) as u8,
            (value / 0x1_0000 % 256) as u8,
        ],
        le_bytes(value, 4) == seq![
            (value % 256) as u8,
            (value / 0x100 % 256) as u8,
            (value / 0x1_0000 % 256) as u8,
            (value / 0x100_0000 % 256) as u8,
        ],
        le_bytes(value, 8) == seq![
            (value % 256) as u8,
            (value / 0x100 % 256) as u8,
            (value / 0x1_0000 % 256) as u8,
            (value / 0x100_0000 % 256) as u8,
            (value / 0x1_0000_0000 % 256) as u8,
            (value / 0x100_0000_0000 % 256) as u8,
            (value / 0x1_0000_0000_0000 % 256) as u8,
            (value / 0x100_0000_0000_0000 % 256) as u8,
        ],
{
    reveal_with_fuel(le_bytes, 9);
    assert(value / 256 / 256 == value / 0x1_0000);
    assert(value / 256 / 256 / 256 == value / 0x100_0000);
    assert(value / 256 / 256 / 256 / 256 == value / 0x1_0000_0000);
    assert(value / 256 / 256 / 256 / 256 / 256 == value / 0x100_0000_0000);
    assert(value / 256 / 256 / 256 / 256 / 256 / 256 == value / 0x1_0000_0000_0000);
    assert(value / 256 / 256 / 256 / 256 / 256 / 256 / 256 == value / 0x100_0000_0000_0000);
}

/// Bytes are read as a number to the base of 256, the lowest first.
pub proof fn numbers_are_read_low_byte_first(
    b0: u8,
    b1: u8,
    b2: u8,
    b3: u8,
    b4: u8,
    b5: u8,
    b6: u8,
    b7: u8,
)
    ensures
        le_value(seq![b0, b1]) == b0 + b1 * 0x100,
        le_value(seq![b0, b1, b2]) == b0 + b1 * 0x100 + b2 * 0x1_0000,
        le_value(seq![b0, b1, b2, b3]) == b0 + b1 * 0x100 + b2 * 0x1_0000 + b3 * 0x100_0000,
        le_value(seq![b0, b1, b2, b3, b4, b5, b6, b7]) == b0 + b1 * 0x100 + b2 * 0x1_0000 + b3
            * 0x100_0000 + b4 * 0x1_0000_0000 + b5 * 0x100_0000_0000 + b6 * 0x1_0000_0000_0000 + b7
            * 0x100_0000_0000_0000,
{
    reveal_with_fuel(le_value, 9);
    let all = seq![b0, b1, b2, b3, b4, b5, b6, b7];
    assert(seq![b0, b1].drop_first() =~= seq![b1]);
    assert(seq![b1].drop_first() =~= seq![]);
    assert(seq![b0, b1, b2].drop_first() =~= seq![b1, b2]);
    assert(seq![b1, b2].drop_first() =~= seq![b2]);
    assert(seq![b2].drop_first() =~= seq![]);
    assert(seq![b0, b1, b2, b3].drop_first() =~= seq![b1, b2, b3]);
    assert(seq![b1, b2, b3].drop_first() =~= seq![b2, b3]);
    assert(seq![b2, b3].drop_first() =~= seq![b3]);
    assert(seq![b3].drop_first() =~= seq![]);
    assert(all.drop_first() =~= seq![b1, b2, b3, b4, b5, b6, b7]);
    assert(seq![b1, b2, b3, b4, b5, b6, b7].drop_first() =~= seq![b2, b3, b4, b5, b6, b7]);
    assert(seq![b2, b3, b4, b5, b6, b7].drop_first() =~= seq![b3, b4, b5, b6, b7]);
    assert(seq![b3, b4, b5, b6, b7].drop_first() =~= seq![b4, b5, b6, b7]);
    assert(seq![b4, b5, b6, b7].drop_first() =~= seq![b5, b6, b7]);
    assert(seq![b5, b6, b7].drop_first() =~= seq![b6, b7]);
    assert(seq![b6, b7].drop_first() =~= seq![b7]);
    assert(seq![b7].drop_first() =~= seq![]);
}

/// A header writes a length in three bytes, the most it can where it is more.
pub proof fn header_lengths_stop_at_the_most(count: nat)
    ensures
        count <= 0xff_ffff ==> header_length(count) == seq![
            (count % 256) as u8,
            (count / 0x100 % 256) as u8,
            (count / 0x1_0000) as u8,
        ],
        count > 0xff_ffff ==> header_length(count) == seq![0xffu8, 0xffu8, 0xffu8],
{
    numbers_are_written_low_byte_first(count);
    numbers_are_written_low_byte_first(0xff_ffff);
}

/// A field of fixed width is the bytes at the front, and those after them are
/// left; where there are fewer, nothing is taken and reading it fails for
/// good.
pub proof fn fixed_fields_are_taken_from_the_front(
    b0: u8,
    b1: u8,
    b2: u8,
    b3: u8,
    taken: Seq<u8>,
    rest: Seq<u8>,
    short: Seq<u8>,
    count: nat,
)
    requires
        short.len() < count,
    ensures
        read_bytes(taken + rest, taken.len()) == (Ok::<Seq<u8>, Fault>(taken), rest),
        read_bytes(short, count).0 matches Err(fault) && !fault.retryable,
        read_bytes(short, count).1 == short,
        read_byte(seq![b0] + rest) == (Ok::<u8, Fault>(b0), rest),
        read_int16(seq![b0, b1] + rest) == (Ok::<u16, Fault>((b0 + b1 * 0x100) as u16), rest),
        read_int32(seq![b0, b1, b2, b3] + rest) == (
            Ok::<u32, Fault>((b0 + b1 * 0x100 + b2 * 0x1_0000 + b3 * 0x100_0000) as u32),
            rest,
        ),
{
    bytes_read_back(taken, rest);
    byte_read_back(b0, rest);
    bytes_read_back(seq![b0, b1], rest);
    bytes_read_back(seq![b0, b1, b2, b3], rest);
    numbers_are_read_low_byte_first(b0, b1, b2, b3, 0, 0, 0, 0);
}

/// A length-encoded integer is written in the least bytes that can hold it:
/// itself up to 250, and else two, three or eight bytes behind the byte that
/// says so.
#[verifier::rlimit(40)]
pub proof fn lengths_are_written_in_the_least_bytes(value: u64)
    ensures
        value <= 250 ==> lenenc(value) == seq![value as u8],
        250 < value <= 0xffff ==> lenenc(value).len() == 3 && lenenc(value)[0] == 0xfc && lenenc(
            value,
        )[1] + lenenc(value)[2] * 0x100 == value,
        0xffff < value <= 0xff_ffff ==> lenenc(value).len() == 4 && lenenc(value)[0] == 0xfd
            && lenenc(value)[1] + lenenc(value)[2] * 0x100 + lenenc(value)[3] * 0x1_0000 == value,
        0xff_ffff < value ==> lenenc(value).len() == 9 && lenenc(value)[0] == 0xfe && lenenc(
            value,
        )[1] + lenenc(value)[2] * 0x100 + lenenc(value)[3] * 0x1_0000 + lenenc(value)[4]
            * 0x100_0000 + lenenc(value)[5] * 0x1_0000_0000 + lenenc(value)[6] * 0x100_0000_0000
            + lenenc(value)[7] * 0x1_0000_0000_0000 + lenenc(value)[8] * 0x100_0000_0000_0000
            == value,
{
    numbers_are_written_low_byte_first(value as nat);
    let v = value as nat;
    assert(v / 0x100 == v / 0x1_0000 * 0x100 + v / 0x100 % 256) by {
        assert(v / 0x100 / 0x100 == v / 0x1_0000);
    }
    assert(v / 0x1_0000 == v / 0x100_0000 * 0x100 + v / 0x1_0000 % 256) by {
        assert(v / 0x1_0000 / 0x100 == v / 0x100_0000);
    }
    assert(v / 0x100_0000 == v / 0x1_0000_0000 * 0x100 + v / 0x100_0000 % 256) by {
        assert(v / 0x100_0000 / 0x100 == v / 0x1_0000_0000);
    }
    assert(v / 0x1_0000_0000 == v / 0x100_0000_0000 * 0x100 + v / 0x1_0000_0000 % 256) by {
        assert(v / 0x1_0000_0000 / 0x100 == v / 0x100_0000_0000);
    }
    assert(v / 0x100_0000_0000 == v / 0x1_0000_0000_0000 * 0x100 + v / 0x100_0000_0000 % 256) by {
        assert(v / 0x100_0000_0000 / 0x100 == v / 0x1_0000_0000_0000);
    }
    assert(v / 0x1_0000_0000_0000 == v / 0x100_0000_0000_0000 * 0x100 + v / 0x1_0000_0000_0000
        % 256) by {
        assert(v / 0x1_0000_0000_0000 / 0x100 == v / 0x100_0000_0000_0000);
    }
    assert(v / 0x100_0000_0000_0000 < 256);
}

/// A length-encoded integer is read by its first byte, in as many bytes as a
/// writer chose, the least or not.
#[verifier::rlimit(40)]
pub proof fn lengths_are_read_by_their_first_byte(
    b0: u8,
    b1: u8,
    b2: u8,
    b3: u8,
    b4: u8,
    b5: u8,
    b6: u8,
    b7: u8,
    rest: Seq<u8>,
)
    ensures
        b0 <= 250 ==> read_lenenc(seq![b0] + rest) == (Ok::<u64, Fault>(b0 as u64), rest),
        read_lenenc(seq![0xfcu8, b0, b1] + rest) == (
            Ok::<u64, Fault>((b0 + b1 * 0x100) as u64),
            rest,
        ),
        read_lenenc(seq![0xfdu8, b0, b1, b2] + rest) == (
            Ok::<u64, Fault>((b0 + b1 * 0x100 + b2 * 0x1_0000) as u64),
            rest,
        ),
        read_lenenc(seq![0xfeu8, b0, b1, b2, b3, b4, b5, b6, b7] + rest) == (
            Ok::<u64, Fault>(
                (b0 + b1 * 0x100 + b2 * 0x1_0000 + b3 * 0x100_0000 + b4 * 0x1_0000_0000 + b5
                    * 0x100_0000_0000 + b6 * 0x1_0000_0000_0000 + b7 * 0x100_0000_0000_0000) as u64,
            ),
            rest,
        ),
{
    numbers_are_read_low_byte_first(b0, b1, b2, b3, b4, b5, b6, b7);
    if b0 <= 250 {
        byte_read_back(b0, rest);
    }
    wide_length_read(0xfc, seq![b0, b1], rest);
    wide_length_read(0xfd, seq![b0, b1, b2], rest);
    wide_length_read(0xfe, seq![b0, b1, b2, b3, b4, b5, b6, b7], rest);
    assert(seq![0xfcu8] + seq![b0, b1] + rest =~= seq![0xfcu8, b0, b1] + rest);
    assert(seq![0xfdu8] + seq![b0, b1, b2] + rest =~= seq![0xfdu8, b0, b1, b2] + rest);
    assert(seq![0xfeu8] + seq![b0, b1, b2, b3, b4, b5, b6, b7] + rest
        =~= seq![0xfeu8, b0, b1, b2, b3, b4, b5, b6, b7] + rest);
}

/// A length behind a byte that says its width is read.
proof fn wide_length_read(opening: u8, digits: Seq<u8>, rest: Seq<u8>)
    requires
        opening == 0xfc && digits.len() == 2 || opening == 0xfd && digits.len() == 3 || opening
            == 0xfe && digits.len() == 8,
    ensures
        read_lenenc(seq![opening] + digits + rest) == (
            Ok::<u64, Fault>(le_value(digits) as u64),
            rest,
        ),
{
    assert(seq![opening] + digits + rest =~= seq![opening] + (digits + rest));
    byte_read_back(opening, digits + rest);
    bytes_read_back(digits, rest);
}

/// No integer opens with the mark of a NULL or with 0xFF, and one that breaks
/// off is none: reading it fails for good.
pub proof fn broken_lengths_are_refused(opening: u8, rest: Seq<u8>)
    ensures
        read_lenenc(seq![]).0 matches Err(fault) && !fault.retryable,
        opening == 0xfb || opening == 0xff ==> (read_lenenc(seq![opening] + rest).0 matches Err(
            fault,
        ) && !fault.retryable),
        opening == 0xfc && rest.len() < 2 || opening == 0xfd && rest.len() < 3 || opening == 0xfe
            && rest.len() < 8 ==> (read_lenenc(seq![opening] + rest).0 matches Err(fault)
            && !fault.retryable),
{
    byte_read_back(opening, rest);
}

/// A string is its UTF-8 behind its length, or before the NUL that ends it.
pub proof fn strings_are_written_as_their_utf8(text: Seq<char>)
    ensures
        encode_utf8(text).len() <= 250 ==> lenenc_string(encode_utf8(text)) == seq![
            encode_utf8(text).len() as u8,
        ] + encode_utf8(text),
        lenenc_string(encode_utf8(text)) == lenenc(encode_utf8(text).len() as u64) + encode_utf8(
            text,
        ),
        ended_string(text) == encode_utf8(text) + seq![0u8],
{
    assert(encode_utf8(text).push(0) =~= encode_utf8(text) + seq![0u8]);
}

/// A string is read as the text of the bytes behind its length, however the
/// length is written, and what follows it is left; a string that breaks off
/// is refused for good.
pub proof fn counted_strings_are_read_whole(
    length: Seq<u8>,
    count: u64,
    body: Seq<u8>,
    rest: Seq<u8>,
)
    requires
        read_lenenc(length + (body + rest)) == (Ok::<u64, Fault>(count), body + rest),
        count <= usize::MAX,
    ensures
        body.len() == count ==> read_lenenc_str(length + (body + rest)) == (
            Ok::<Seq<char>, Fault>(lossy_text(body)),
            rest,
        ),
        (body + rest).len() < count ==> (read_lenenc_str(length + (body + rest)).0 matches Err(
            fault,
        ) && !fault.retryable),
{
    bytes_read_back(body, rest);
}

/// A string that a NUL ends is read as the text of the bytes before its first
/// NUL, and what follows the NUL is left; without a NUL it is refused for
/// good and nothing is taken.
pub proof fn ended_strings_are_read_to_their_nul(body: Seq<u8>, rest: Seq<u8>)
    requires
        forall|i: int| 0 <= i < body.len() ==> body[i] != 0,
    ensures
        read_cstring(body + seq![0u8] + rest) == (Ok::<Seq<char>, Fault>(lossy_text(body)), rest),
        read_cstring(body).0 matches Err(fault) && !fault.retryable,
        read_cstring(body).1 == body,
{
    let all = body + seq![0u8] + rest;
    assert forall|i: int| 0 <= i < body.len() implies all[i] != 0 by {
        assert(all[i] == body[i]);
    }
    before_nul_is(all, body.len());
    before_nul_is(body, body.len());
    assert(all.take(body.len() as int) =~= body);
    assert(all.skip(body.len() as int + 1) =~= rest);
}

/// Bytes that are UTF-8 are read as the text that they encode, and other bytes
/// as the standard library repairs them.
pub proof fn utf8_is_read_as_its_text(text: Seq<char>, bytes: Seq<u8>)
    ensures
        lossy_text(encode_utf8(text)) == text,
        valid_utf8(bytes) ==> lossy_text(bytes) == decode_utf8(bytes),
        !valid_utf8(bytes) ==> lossy_text(bytes) == repaired_text(bytes),
{
    crate::text::lossy_text_of_text(text);
}

} // verus!
