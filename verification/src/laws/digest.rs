//! What holds of the SHA-1 digest and of the scrambled password made with it.

use crate::handshake::{scrambled, verifies};
use crate::sha1::{
    after_blocks, after_rounds, be_bytes, be_bytes_length, digest_length, digest_of, mixed,
    padded, scheduled, turned, Words,
};
use vstd::prelude::*;
use vstd::utf8::encode_utf8;

verus! {

/// The number that bytes write, the highest first.
pub open spec fn be_value(bytes: Seq<u8>) -> nat
    decreases bytes.len(),
{
    if bytes.len() == 0 {
        0
    } else {
        be_value(bytes.drop_last()) * 256 + bytes.last() as nat
    }
}

/// The number that eight bytes write, the highest first, byte by byte.
proof fn be_value_of_eight(bytes: Seq<u8>)
    requires
        bytes.len() == 8,
    ensures
        be_value(bytes) == bytes[0] * 0x100_0000_0000_0000 + bytes[1] * 0x1_0000_0000_0000
            + bytes[2] * 0x100_0000_0000 + bytes[3] * 0x1_0000_0000 + bytes[4] * 0x100_0000
            + bytes[5] * 0x1_0000 + bytes[6] * 0x100 + bytes[7],
{
    reveal_with_fuel(be_value, 9);
    assert(bytes.drop_last().drop_last().drop_last().drop_last().drop_last().drop_last().drop_last()
        .drop_last() =~= seq![]);
}

/// A number is read back from the bytes it was written in.
proof fn be_value_of_be_bytes(value: nat, width: nat)
    requires
        value < crate::wire::byte_range(width),
    ensures
        be_value(be_bytes(value, width)) == value,
    decreases width,
{
    if width > 0 {
        let first = be_bytes(value / 256, (width - 1) as nat);
        assert(value / 256 < crate::wire::byte_range((width - 1) as nat));
        be_value_of_be_bytes(value / 256, (width - 1) as nat);
        assert(be_bytes(value, width).drop_last() =~= first);
    }
}

/// A message is padded with the least that fills whole blocks of 64 bytes:
/// the message as it is, a byte of 0x80, zeros, and in the last eight bytes
/// its length in bits, the highest byte first.
#[verifier::rlimit(40)]
pub proof fn padding_is_least(message: Seq<u8>)
    ensures
        ({
            let blocks = padded(message);
            let count = message.len() as int;
            let end = blocks.len() - 8;
            &&& blocks.len() % 64 == 0
            &&& count + 9 <= blocks.len() < count + 9 + 64
            &&& blocks.take(count) == message
            &&& blocks[count] == 0x80
            &&& forall|i: int| count < i < end ==> #[trigger] blocks[i] == 0
            &&& blocks[end] * 0x100_0000_0000_0000 + blocks[end + 1] * 0x1_0000_0000_0000
                + blocks[end + 2] * 0x100_0000_0000 + blocks[end + 3] * 0x1_0000_0000 + blocks[end
                + 4] * 0x100_0000 + blocks[end + 5] * 0x1_0000 + blocks[end + 6] * 0x100
                + blocks[end + 7] == (8 * count) % 0x1_0000_0000_0000_0000
        }),
{
    let blocks = padded(message);
    let count = message.len() as int;
    let bits = (message.len() * 8) % 0x1_0000_0000_0000_0000;
    let length = be_bytes(bits, 8);
    crate::sha1::padded_length(message);
    be_bytes_length(bits, 8);
    crate::wire::byte_ranges();
    be_value_of_be_bytes(bits, 8);
    be_value_of_eight(length);
    let end = blocks.len() - 8;
    assert(blocks.skip(end) =~= length);
    assert forall|k: int| 0 <= k < 8 implies blocks[end + k] == length[k] by {
        assert(blocks.skip(end)[k] == length[k]);
    }
    assert(blocks[end + 0] == length[0]);
    assert(blocks.take(count) =~= message);
}

/// A message of up to 55 bytes is one block, one of up to 119 is two.
pub proof fn short_messages_are_one_block(message: Seq<u8>)
    ensures
        message.len() <= 55 ==> padded(message).len() == 64,
        55 < message.len() <= 119 ==> padded(message).len() == 128,
{
    padding_is_least(message);
}

/// A word turned left keeps its bits in order: those pushed out come back at
/// the other end.
pub proof fn turning_keeps_the_bits(word: u32)
    ensures
        turned(word, 1) == (word * 2) % 0x1_0000_0000 + word / 0x8000_0000,
        turned(word, 5) == (word * 0x20) % 0x1_0000_0000 + word / 0x800_0000,
        turned(word, 30) == (word * 0x4000_0000) % 0x1_0000_0000 + word / 4,
{
    let one = (word << 1u32) | (word >> 31u32);
    assert(one == (word * 2) % 0x1_0000_0000 + word / 0x8000_0000) by (bit_vector)
        requires
            one == (word << 1u32) | (word >> 31u32),
    ;
    let five = (word << 5u32) | (word >> 27u32);
    assert(five == (word * 0x20) % 0x1_0000_0000 + word / 0x800_0000) by (bit_vector)
        requires
            five == (word << 5u32) | (word >> 27u32),
    ;
    let thirty = (word << 30u32) | (word >> 2u32);
    assert(thirty == (word * 0x4000_0000) % 0x1_0000_0000 + word / 4) by (bit_vector)
        requires
            thirty == (word << 30u32) | (word >> 2u32),
    ;
}

/// What a round mixes of three words, bit by bit: in the first twenty, the
/// second word's bit where the first has one and the third's where it has
/// none; in the third twenty, the bit that two of the three have; in the
/// others, one where an odd count of them has one.
pub proof fn rounds_mix_bit_by_bit(t: nat, b: u32, c: u32, d: u32)
    requires
        t < 80,
    ensures
        t < 20 ==> mixed(t, b, c, d) & b == c & b && mixed(t, b, c, d) & !b == d & !b,
        20 <= t < 40 || 60 <= t ==> mixed(t, b, c, d) ^ b ^ c == d,
        40 <= t < 60 ==> (mixed(t, b, c, d) ^ b) & !(b ^ c) == 0 && (mixed(t, b, c, d) ^ d) & (b
            ^ c) == 0,
{
    assert(((b & c) | (!b & d)) & b == c & b && ((b & c) | (!b & d)) & !b == d & !b)
        by (bit_vector);
    assert((b ^ c ^ d) ^ b ^ c == d) by (bit_vector);
    assert((((b & c) | (b & d) | (c & d)) ^ b) & !(b ^ c) == 0 && (((b & c) | (b & d) | (c & d))
        ^ d) & (b ^ c) == 0) by (bit_vector);
}

/// The schedule of a block: its own bytes four by four, the highest first,
/// and from the seventeenth word on the exclusive-or of four earlier ones,
/// turned left by one bit.
pub proof fn schedule_extends_the_block(block: Seq<u8>, t: nat)
    requires
        block.len() == 64,
    ensures
        t < 16 ==> scheduled(block, t) == block[4 * t as int] * 0x100_0000 + block[4 * t as int + 1]
            * 0x1_0000 + block[4 * t as int + 2] * 0x100 + block[4 * t as int + 3],
        t >= 16 ==> ({
            let x = scheduled(block, (t - 16) as nat) ^ scheduled(block, (t - 14) as nat)
                ^ scheduled(block, (t - 8) as nat) ^ scheduled(block, (t - 3) as nat);
            scheduled(block, t) == (x * 2) % 0x1_0000_0000 + x / 0x8000_0000
        }),
{
    if t < 16 {
        let bytes = block.subrange(4 * t as int, 4 * t as int + 4);
        assert(bytes[0] == block[4 * t as int] && bytes[1] == block[4 * t as int + 1] && bytes[2]
            == block[4 * t as int + 2] && bytes[3] == block[4 * t as int + 3]);
    } else {
        let w = scheduled(block, (t - 3) as nat);
        let x = scheduled(block, (t - 8) as nat);
        let y = scheduled(block, (t - 14) as nat);
        let z = scheduled(block, (t - 16) as nat);
        assert(w ^ x ^ y ^ z == z ^ y ^ x ^ w) by (bit_vector);
        turning_keeps_the_bits(w ^ x ^ y ^ z);
    }
}

/// One round: every word moves on by one, the second turned left by thirty
/// bits on its way, and the new first word is the sum of the first turned
/// left by five, the mix of the next three, the last, the round's constant
/// and the round's word of the schedule.
#[verifier::rlimit(40)]
pub proof fn round_moves_the_words_on(start: Words, block: Seq<u8>, t: nat)
    requires
        t < 80,
    ensures
        after_rounds(start, block, 0) == start,
        ({
            let old_words = after_rounds(start, block, t);
            let new_words = after_rounds(start, block, t + 1);
            let k: int = if t < 20 {
                0x5a82_7999
            } else if t < 40 {
                0x6ed9_eba1
            } else if t < 60 {
                0x8f1b_bcdc
            } else {
                0xca62_c1d6
            };
            &&& new_words.b == old_words.a
            &&& new_words.c == turned(old_words.b, 30)
            &&& new_words.d == old_words.c
            &&& new_words.e == old_words.d
            &&& new_words.a == (turned(old_words.a, 5) + mixed(
                t,
                old_words.b,
                old_words.c,
                old_words.d,
            ) + old_words.e + k + scheduled(block, t)) % 0x1_0000_0000
        }),
{
    let old_words = after_rounds(start, block, t);
    wrapped_sum(
        turned(old_words.a, 5),
        mixed(t, old_words.b, old_words.c, old_words.d),
        old_words.e,
        crate::sha1::constant(t),
        scheduled(block, t),
    );
}

/// Five words added one after another, each sum without what runs over.
proof fn wrapped_sum(v: u32, w: u32, x: u32, y: u32, z: u32)
    ensures
        v.wrapping_add(w).wrapping_add(x).wrapping_add(y).wrapping_add(z) == (v + w + x + y + z)
            % 0x1_0000_0000,
{
}

/// A digest folds the blocks of the padded message in one after another, from
/// five fixed words, eighty rounds a block; each of its words is four bytes,
/// the highest first.
#[verifier::rlimit(40)]
pub proof fn digest_folds_every_block(message: Seq<u8>, index: nat)
    requires
        index < padded(message).len() / 64,
    ensures
        ({
            let blocks = padded(message);
            let before = after_blocks(blocks, index);
            let after = after_blocks(blocks, index + 1);
            let block = blocks.subrange(64 * index as int, 64 * index as int + 64);
            let end = after_rounds(before, block, 80);
            &&& after.a == (before.a + end.a) % 0x1_0000_0000
            &&& after.b == (before.b + end.b) % 0x1_0000_0000
            &&& after.c == (before.c + end.c) % 0x1_0000_0000
            &&& after.d == (before.d + end.d) % 0x1_0000_0000
            &&& after.e == (before.e + end.e) % 0x1_0000_0000
        }),
        after_blocks(padded(message), 0) == (Words {
            a: 0x6745_2301,
            b: 0xefcd_ab89,
            c: 0x98ba_dcfe,
            d: 0x1032_5476,
            e: 0xc3d2_e1f0,
        }),
        ({
            let words = after_blocks(padded(message), padded(message).len() / 64);
            let digest = digest_of(message);
            &&& digest.len() == 20
            &&& be_value(digest.subrange(0, 4)) == words.a
            &&& be_value(digest.subrange(4, 8)) == words.b
            &&& be_value(digest.subrange(8, 12)) == words.c
            &&& be_value(digest.subrange(12, 16)) == words.d
            &&& be_value(digest.subrange(16, 20)) == words.e
        }),
{
    let words = after_blocks(padded(message), padded(message).len() / 64);
    let digest = digest_of(message);
    crate::wire::byte_ranges();
    digest_length(message);
    be_bytes_length(words.a as nat, 4);
    be_bytes_length(words.b as nat, 4);
    be_bytes_length(words.c as nat, 4);
    be_bytes_length(words.d as nat, 4);
    be_bytes_length(words.e as nat, 4);
    be_value_of_be_bytes(words.a as nat, 4);
    be_value_of_be_bytes(words.b as nat, 4);
    be_value_of_be_bytes(words.c as nat, 4);
    be_value_of_be_bytes(words.d as nat, 4);
    be_value_of_be_bytes(words.e as nat, 4);
    assert(digest.subrange(0, 4) =~= be_bytes(words.a as nat, 4));
    assert(digest.subrange(4, 8) =~= be_bytes(words.b as nat, 4));
    assert(digest.subrange(8, 12) =~= be_bytes(words.c as nat, 4));
    assert(digest.subrange(12, 16) =~= be_bytes(words.d as nat, 4));
    assert(digest.subrange(16, 20) =~= be_bytes(words.e as nat, 4));
}

/// A scrambled password is SHA1(password) XOR SHA1(nonce + SHA1(SHA1(password))),
/// byte by byte; of an empty password it is empty.
pub proof fn scramble_is_the_masked_digest(password: Seq<char>, nonce: Seq<u8>, i: int)
    ensures
        scrambled(password, nonce).len() == (if password.len() == 0 {
            0nat
        } else {
            20nat
        }),
        password.len() > 0 && 0 <= i < 20 ==> scrambled(password, nonce)[i] == digest_of(
            encode_utf8(password),
        )[i] ^ digest_of(nonce + digest_of(digest_of(encode_utf8(password))))[i],
{
    digest_length(encode_utf8(password));
}

/// A response proves a password if it is the scrambled password, and no other
/// response does.
pub proof fn no_other_response_proves(password: Seq<char>, nonce: Seq<u8>, response: Seq<u8>)
    ensures
        verifies(password, nonce, response) <==> response.len() == scrambled(password, nonce).len()
            && forall|i: int|
            0 <= i < response.len() ==> #[trigger] response[i] == scrambled(password, nonce)[i],
{
    if response.len() == scrambled(password, nonce).len() && (forall|i: int|
        0 <= i < response.len() ==> #[trigger] response[i] == scrambled(password, nonce)[i]) {
        assert(response =~= scrambled(password, nonce));
    }
}

} // verus!
