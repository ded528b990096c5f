//! SHA-1, as the native password needs it and nothing else does.
//!
//! `mysql_native_password` is SHA-1 three times over a password and a
//! nonce (`handshake.rs`), and SHA-1 has no other use in this crate - it
//! is broken for what a hash is meant for, and the estate's archives and
//! signatures use SHA-256. Eighty rounds over sixteen words is the whole
//! algorithm, so it is written here, and the functions that say what it is
//! follow FIPS 180-1.

use crate::wire::append;
pub use crate::hex::hex;
use vstd::prelude::*;
use vstd::slice::slice_subrange;

verus! {

/// A SHA-1 digest is twenty bytes.
pub const DIGEST_LENGTH: usize = 20;

/// The five words a digest is made in, under FIPS 180-1's names.
pub struct Words {
    pub a: u32,
    pub b: u32,
    pub c: u32,
    pub d: u32,
    pub e: u32,
}

/// `word` turned left by `count` bits.
pub open spec fn turned(word: u32, count: u32) -> u32 {
    (word << count) | (word >> ((32 - count) as u32))
}

/// `value` in `width` bytes, the highest first.
pub open spec fn be_bytes(value: nat, width: nat) -> Seq<u8>
    decreases width,
{
    if width == 0 {
        seq![]
    } else {
        be_bytes(value / 256, (width - 1) as nat).push((value % 256) as u8)
    }
}

/// The word that four bytes write, the highest first.
pub open spec fn be_word(bytes: Seq<u8>) -> u32 {
    (bytes[0] * 0x100_0000 + bytes[1] * 0x1_0000 + bytes[2] * 0x100 + bytes[3]) as u32
}

/// Word `t` of the schedule of a block: the block's own sixteen, then each
/// from four before it.
pub open spec fn scheduled(block: Seq<u8>, t: nat) -> u32
    decreases t,
{
    if t < 16 {
        be_word(block.subrange(4 * t as int, 4 * t as int + 4))
    } else {
        turned(
            scheduled(block, (t - 3) as nat) ^ scheduled(block, (t - 8) as nat) ^ scheduled(
                block,
                (t - 14) as nat,
            ) ^ scheduled(block, (t - 16) as nat),
            1,
        )
    }
}

/// The function of round `t`.
pub open spec fn mixed(t: nat, b: u32, c: u32, d: u32) -> u32 {
    if t < 20 {
        (b & c) | (!b & d)
    } else if t < 40 {
        b ^ c ^ d
    } else if t < 60 {
        (b & c) | (b & d) | (c & d)
    } else {
        b ^ c ^ d
    }
}

/// The constant of round `t`.
pub open spec fn constant(t: nat) -> u32 {
    if t < 20 {
        0x5a82_7999
    } else if t < 40 {
        0x6ed9_eba1
    } else if t < 60 {
        0x8f1b_bcdc
    } else {
        0xca62_c1d6
    }
}

/// The words after the first `count` rounds on a block.
pub open spec fn after_rounds(start: Words, block: Seq<u8>, count: nat) -> Words
    decreases count,
{
    if count == 0 {
        start
    } else {
        let t = (count - 1) as nat;
        let Words { a, b, c, d, e } = after_rounds(start, block, t);
        Words {
            a: turned(a, 5).wrapping_add(mixed(t, b, c, d)).wrapping_add(e).wrapping_add(
                constant(t),
            ).wrapping_add(scheduled(block, t)),
            b: a,
            c: turned(b, 30),
            d: c,
            e: d,
        }
    }
}

/// The words with a 64-byte block folded in.
pub open spec fn folded(state: Words, block: Seq<u8>) -> Words {
    let end = after_rounds(state, block, 80);
    Words {
        a: state.a.wrapping_add(end.a),
        b: state.b.wrapping_add(end.b),
        c: state.c.wrapping_add(end.c),
        d: state.d.wrapping_add(end.d),
        e: state.e.wrapping_add(end.e),
    }
}

/// The words before any block.
pub open spec fn initial() -> Words {
    Words {
        a: 0x6745_2301,
        b: 0xefcd_ab89,
        c: 0x98ba_dcfe,
        d: 0x1032_5476,
        e: 0xc3d2_e1f0,
    }
}

/// How many zeros stand between the marker and the length.
pub open spec fn padding(length: nat) -> nat {
    ((119 - length % 64) % 64) as nat
}

/// A message with its padding: the marker, zeros up to the last eight bytes
/// of a block, and the length in bits.
pub open spec fn padded(message: Seq<u8>) -> Seq<u8> {
    message + seq![0x80u8] + Seq::new(padding(message.len()), |i: int| 0u8) + be_bytes(
        (message.len() * 8) % 0x1_0000_0000_0000_0000,
        8,
    )
}

/// The words after the first `count` blocks.
pub open spec fn after_blocks(blocks: Seq<u8>, count: nat) -> Words
    decreases count,
{
    if count == 0 {
        initial()
    } else {
        folded(
            after_blocks(blocks, (count - 1) as nat),
            blocks.subrange(64 * (count - 1), 64 * count as int),
        )
    }
}

/// The words as bytes, each the highest first.
pub open spec fn word_bytes(words: Words) -> Seq<u8> {
    be_bytes(words.a as nat, 4) + be_bytes(words.b as nat, 4) + be_bytes(words.c as nat, 4)
        + be_bytes(words.d as nat, 4) + be_bytes(words.e as nat, 4)
}

/// The SHA-1 digest of a message.
pub open spec fn digest_of(message: Seq<u8>) -> Seq<u8> {
    let blocks = padded(message);
    word_bytes(after_blocks(blocks, blocks.len() / 64))
}

/// A number is written in as many bytes as it is given.
pub(crate) proof fn be_bytes_length(value: nat, width: nat)
    ensures
        be_bytes(value, width).len() == width,
    decreases width,
{
    if width > 0 {
        be_bytes_length(value / 256, (width - 1) as nat);
    }
}

/// A digest is twenty bytes.
pub proof fn digest_length(message: Seq<u8>)
    ensures
        digest_of(message).len() == DIGEST_LENGTH,
{
    let blocks = padded(message);
    let words = after_blocks(blocks, blocks.len() / 64);
    be_bytes_length(words.a as nat, 4);
    be_bytes_length(words.b as nat, 4);
    be_bytes_length(words.c as nat, 4);
    be_bytes_length(words.d as nat, 4);
    be_bytes_length(words.e as nat, 4);
}

/// `word` turned left by `count` bits.
fn turn(word: u32, count: u32) -> (turned_word: u32)
    requires
        0 < count < 32,
    ensures
        turned_word == turned(word, count),
{
    (word << count) | (word >> (32 - count))
}

/// Adds `word` to the end of `out`, the highest byte first.
fn append_word(out: &mut Vec<u8>, word: u32)
    ensures
        final(out)@ == old(out)@ + be_bytes(word as nat, 4),
{
    let ghost before = out@;
    out.push((word / 0x100_0000) as u8);
    out.push((word / 0x1_0000 % 256) as u8);
    out.push((word / 0x100 % 256) as u8);
    out.push((word % 256) as u8);
    proof {
        reveal_with_fuel(be_bytes, 5);
        let value = word as nat;
        assert(value / 256 / 256 == value / 0x1_0000);
        assert(value / 256 / 256 / 256 == value / 0x100_0000);
        assert(out@ =~= before + be_bytes(value, 4));
    }
}

/// The state as the five words it holds.
spec fn words(state: Seq<u32>) -> Words {
    Words { a: state[0], b: state[1], c: state[2], d: state[3], e: state[4] }
}

/// One 64-byte block folded into the state.
// The names are FIPS 180-1's own - a to e, f, k, w - and a reader checking
// this against the standard is better served by them than by longer ones.
fn compress(state: &mut [u32; 5], block: &[u8])
    requires
        block@.len() == 64,
    ensures
        words(final(state)@) == folded(words(old(state)@), block@),
{
    let ghost start = words(state@);
    let mut w: Vec<u32> = Vec::new();
    let mut t: usize = 0;
    while t < 80
        invariant
            t <= 80,
            block@.len() == 64,
            w@.len() == t,
            forall|i: int| 0 <= i < t ==> w@[i] == scheduled(block@, i as nat),
        decreases 80 - t,
    {
        let word: u32 = if t < 16 {
            proof {
                let bytes = block@.subrange(4 * t as int, 4 * t as int + 4);
                assert(bytes[0] == block@[4 * t as int]);
                assert(bytes[1] == block@[4 * t as int + 1]);
                assert(bytes[2] == block@[4 * t as int + 2]);
                assert(bytes[3] == block@[4 * t as int + 3]);
            }
            block[4 * t] as u32 * 0x100_0000 + block[4 * t + 1] as u32 * 0x1_0000 + block[4 * t
                + 2] as u32 * 0x100 + block[4 * t + 3] as u32
        } else {
            turn(w[t - 3] ^ w[t - 8] ^ w[t - 14] ^ w[t - 16], 1)
        };
        w.push(word);
        t += 1;
    }
    let mut a: u32 = state[0];
    let mut b: u32 = state[1];
    let mut c: u32 = state[2];
    let mut d: u32 = state[3];
    let mut e: u32 = state[4];
    let mut t: usize = 0;
    while t < 80
        invariant
            t <= 80,
            w@.len() == 80,
            forall|i: int| 0 <= i < 80 ==> w@[i] == scheduled(block@, i as nat),
            (Words { a, b, c, d, e }) == after_rounds(start, block@, t as nat),
        decreases 80 - t,
    {
        let f: u32 = if t < 20 {
            (b & c) | (!b & d)
        } else if t < 40 {
            b ^ c ^ d
        } else if t < 60 {
            (b & c) | (b & d) | (c & d)
        } else {
            b ^ c ^ d
        };
        let k: u32 = if t < 20 {
            0x5a82_7999
        } else if t < 40 {
            0x6ed9_eba1
        } else if t < 60 {
            0x8f1b_bcdc
        } else {
            0xca62_c1d6
        };
        let temp: u32 = turn(a, 5).wrapping_add(f).wrapping_add(e).wrapping_add(k).wrapping_add(
            w[t],
        );
        e = d;
        d = c;
        c = turn(b, 30);
        b = a;
        a = temp;
        t += 1;
    }
    state[0] = state[0].wrapping_add(a);
    state[1] = state[1].wrapping_add(b);
    state[2] = state[2].wrapping_add(c);
    state[3] = state[3].wrapping_add(d);
    state[4] = state[4].wrapping_add(e);
}

/// Adds a length of `count` bytes to the end of `out`, in bits.
fn append_length(out: &mut Vec<u8>, count: u64)
    ensures
        final(out)@ == old(out)@ + be_bytes((count * 8) as nat % 0x1_0000_0000_0000_0000, 8),
{
    let ghost before = out@;
    let bits: u64 = count.wrapping_mul(8);
    append_word(out, (bits / 0x1_0000_0000) as u32);
    append_word(out, (bits % 0x1_0000_0000) as u32);
    proof {
        long_bytes(bits);
        let high = be_bytes(bits as nat / 0x1_0000_0000, 4);
        let low = be_bytes(bits as nat % 0x1_0000_0000, 4);
        assert(before + high + low =~= before + (high + low));
        assert(bits == (count * 8) as nat % 0x1_0000_0000_0000_0000);
    }
}

/// A padded message is whole blocks.
pub(crate) proof fn padded_length(message: Seq<u8>)
    ensures
        padded(message).len() % 64 == 0,
{
    let length = message.len();
    be_bytes_length((length * 8) % 0x1_0000_0000_0000_0000, 8);
    assert(padded(message).len() == length + 1 + padding(length) + 8);
    assert((length + 1 + padding(length) + 8) % 64 == 0) by {
        assert(length == 64 * (length / 64) + length % 64);
    }
}

/// The message with its padding.
fn pad(message: &[u8]) -> (blocks: Vec<u8>)
    ensures
        blocks@ == padded(message@),
        blocks@.len() % 64 == 0,
{
    let mut blocks: Vec<u8> = Vec::new();
    append(&mut blocks, message);
    blocks.push(0x80);
    let ghost start = blocks@;
    let ghost zeros = Seq::new(padding(message@.len()), |i: int| 0u8);
    let mut count: usize = 0;
    let needed: usize = (119 - message.len() % 64) % 64;
    while count < needed
        invariant
            count <= needed,
            needed == padding(message@.len()),
            zeros == Seq::new(padding(message@.len()), |i: int| 0u8),
            blocks@ == start + zeros.take(count as int),
        decreases needed - count,
    {
        blocks.push(0);
        count += 1;
        assert(blocks@ =~= start + zeros.take(count as int));
    }
    assert(zeros.take(count as int) =~= zeros);
    append_length(&mut blocks, message.len() as u64);
    proof {
        padded_length(message@);
    }
    blocks
}

/// Eight bytes are four and four.
proof fn long_bytes(value: u64)
    ensures
        be_bytes(value as nat, 8) == be_bytes(value as nat / 0x1_0000_0000, 4) + be_bytes(
            value as nat % 0x1_0000_0000,
            4,
        ),
{
    reveal_with_fuel(be_bytes, 9);
    let v = value as nat;
    let high = v / 0x1_0000_0000;
    let low = v % 0x1_0000_0000;
    assert(v / 256 / 256 / 256 / 256 == high);
    assert(v % 256 == low % 256);
    assert(v / 256 % 256 == low / 256 % 256);
    assert(v / 256 / 256 % 256 == low / 256 / 256 % 256);
    assert(v / 256 / 256 / 256 % 256 == low / 256 / 256 / 256 % 256);
    assert(be_bytes(v, 8) =~= be_bytes(high, 4) + be_bytes(low, 4));
}

/// The SHA-1 digest of `message`.
#[must_use]
pub fn sha1(message: &[u8]) -> (digest: [u8; DIGEST_LENGTH])
    ensures
        digest@ == digest_of(message@),
{
    let blocks = pad(message);
    let mut state: [u32; 5] = [0x6745_2301, 0xefcd_ab89, 0x98ba_dcfe, 0x1032_5476, 0xc3d2_e1f0];
    let mut at: usize = 0;
    let ghost mut count: nat = 0;
    while at < blocks.len()
        invariant
            blocks@.len() % 64 == 0,
            at == 64 * count,
            at <= blocks@.len(),
            words(state@) == after_blocks(blocks@, count),
        decreases blocks@.len() - at,
    {
        let block = slice_subrange(blocks.as_slice(), at, at + 64);
        compress(&mut state, block);
        at += 64;
        proof {
            count = count + 1;
        }
    }
    let mut bytes: Vec<u8> = Vec::new();
    append_word(&mut bytes, state[0]);
    append_word(&mut bytes, state[1]);
    append_word(&mut bytes, state[2]);
    append_word(&mut bytes, state[3]);
    append_word(&mut bytes, state[4]);
    proof {
        digest_length(message@);
        assert(bytes@ =~= digest_of(message@));
    }
    let mut digest: [u8; DIGEST_LENGTH] = [0u8; DIGEST_LENGTH];
    let mut at: usize = 0;
    while at < DIGEST_LENGTH
        invariant
            at <= DIGEST_LENGTH,
            bytes@.len() == DIGEST_LENGTH,
            forall|i: int| 0 <= i < at ==> digest@[i] == bytes@[i],
        decreases DIGEST_LENGTH - at,
    {
        digest[at] = bytes[at];
        at += 1;
    }
    assert(digest@ =~= bytes@);
    digest
}

} // verus!
