//! Text as characters and as UTF-8, and the few things of the standard
//! library that the rest of the crate takes on trust.

use vstd::prelude::*;
use vstd::utf8::{decode_utf8, encode_utf8, valid_utf8};

verus! {

/// `String::push` puts one character at the end.
pub assume_specification[ String::push ](text: &mut String, c: char)
    ensures
        final(text)@ == old(text)@.push(c),
;

/// What `String::from_utf8_lossy` makes of bytes that are not UTF-8.
pub uninterp spec fn repaired_text(bytes: Seq<u8>) -> Seq<char>;

/// The text that bytes carry: what they encode where they are UTF-8, and
/// repaired with replacement characters where they are not.
pub open spec fn lossy_text(bytes: Seq<u8>) -> Seq<char> {
    if valid_utf8(bytes) {
        decode_utf8(bytes)
    } else {
        repaired_text(bytes)
    }
}

/// `String::from_utf8_lossy`: bytes that are UTF-8 come back as the text
/// they encode. Of other bytes the contract says that the text depends on the
/// bytes alone and holds a replacement character: which spans it stands for
/// is left unsaid.
#[verifier::external_body]
pub(crate) fn from_utf8_lossy(bytes: &[u8]) -> (text: String)
    ensures
        text@ == (if valid_utf8(bytes@) { decode_utf8(bytes@) } else { repaired_text(bytes@) }),
        !valid_utf8(bytes@) ==> text@.contains('\u{fffd}'),
{
    String::from_utf8_lossy(bytes).into_owned()
}

/// `std::str::from_utf8`: the text that the bytes encode, where they are
/// UTF-8.
#[verifier::external_body]
pub(crate) fn from_utf8(bytes: &[u8]) -> (text: Option<&str>)
    ensures
        text is Some <==> valid_utf8(bytes@),
        text matches Some(text) ==> text@ == decode_utf8(bytes@),
{
    std::str::from_utf8(bytes).ok()
}

/// The characters of `text`, one by one.
pub fn chars_of(text: &str) -> (chars: Vec<char>)
    ensures
        chars@ == text@,
{
    let mut chars: Vec<char> = Vec::new();
    for c in iter: text.chars()
        invariant
            iter.seq() == text@,
            chars@ == text@.take(iter.index() as int),
    {
        assert(text@.take(iter.index() + 1) =~= text@.take(iter.index() as int).push(c));
        chars.push(c);
    }
    assert(text@.take(text@.len() as int) =~= text@);
    chars
}

/// The text that `chars` spell.
pub fn text_of(chars: &[char]) -> (text: String)
    ensures
        text@ == chars@,
{
    let mut text = String::new();
    let mut at: usize = 0;
    while at < chars.len()
        invariant
            at <= chars@.len(),
            text@ == chars@.take(at as int),
        decreases chars@.len() - at,
    {
        assert(chars@.take(at + 1) =~= chars@.take(at as int).push(chars@[at as int]));
        text.push(chars[at]);
        at += 1;
    }
    assert(chars@.take(chars@.len() as int) =~= chars@);
    text
}

/// Text has no NUL.
pub open spec fn no_nul(text: Seq<char>) -> bool {
    forall|i: int| 0 <= i < text.len() ==> text[i] != '\0'
}

/// UTF-8 is read back as the text it was made of.
pub(crate) proof fn lossy_text_of_text(text: Seq<char>)
    ensures
        lossy_text(encode_utf8(text)) == text,
{
    vstd::utf8::encode_utf8_valid_utf8(text);
    vstd::utf8::encode_utf8_decode_utf8(text);
}

/// A character other than NUL is not encoded with a zero byte.
proof fn scalar_without_zero(c: char, bytes: Seq<u8>)
    requires
        c != '\0',
        bytes == vstd::utf8::encode_scalar(c as u32),
    ensures
        forall|i: int| 0 <= i < bytes.len() ==> bytes[i] != 0,
{
    let scalar = c as u32;
    assert(scalar <= 0x7f && scalar != 0 ==> (scalar & 0x7f) as u8 != 0) by (bit_vector);
    assert(forall|low: u8| #[trigger] (0xc0u8 | low) != 0) by (bit_vector);
    assert(forall|low: u8| #[trigger] (0xe0u8 | low) != 0) by (bit_vector);
    assert(forall|low: u8| #[trigger] (0xf0u8 | low) != 0) by (bit_vector);
    assert(forall|low: u8| #[trigger] (0x80u8 | low) != 0) by (bit_vector);
}

/// Text without a NUL is encoded without a zero byte.
pub(crate) proof fn encoded_without_zero(text: Seq<char>)
    requires
        no_nul(text),
    ensures
        forall|i: int| 0 <= i < encode_utf8(text).len() ==> encode_utf8(text)[i] != 0,
    decreases text.len(),
{
    if text.len() > 0 {
        let first = vstd::utf8::encode_scalar(text[0] as u32);
        let rest = encode_utf8(text.drop_first());
        scalar_without_zero(text[0], first);
        encoded_without_zero(text.drop_first());
        assert forall|i: int| 0 <= i < encode_utf8(text).len() implies encode_utf8(text)[i]
            != 0 by {
            if i < first.len() {
                assert(encode_utf8(text)[i] == first[i]);
            } else {
                assert(encode_utf8(text)[i] == rest[i - first.len()]);
            }
        }
    }
}

/// `number` in decimal digits.
pub open spec fn decimal_text(number: nat) -> Seq<char>
    decreases number,
{
    if number < 10 {
        seq![('0' as u32 + number) as char]
    } else {
        decimal_text(number / 10).push(('0' as u32 + number % 10) as char)
    }
}

/// Adds `number` to `text` in decimal digits.
pub(crate) fn push_decimal(text: &mut String, number: u128)
    ensures
        final(text)@ == old(text)@ + decimal_text(number as nat),
    decreases number,
{
    let ghost before = text@;
    if number >= 10 {
        push_decimal(text, number / 10);
    }
    text.push((48 + (number % 10) as u8) as char);
    assert(text@ =~= before + decimal_text(number as nat));
}

/// What `{:?}` writes for text.
pub uninterp spec fn debug_text(text: Seq<char>) -> Seq<char>;

/// `format!` with `{:?}`: text in double quotes with its special characters
/// escaped. Which characters those are is left unsaid: the contract says only
/// that what is written depends on the text alone.
#[verifier::external_body]
pub(crate) fn debug(text: &str) -> (written: String)
    ensures
        written@ == debug_text(text@),
{
    format!("{text:?}")
}


} // verus!
