//! A Stream that is not text, carried the way `MySQL` itself writes
//! binary: the hexadecimal literal, `X'` and two digits a byte.
//!
//! A text column holds UTF-8 without a NUL and nothing else, so a Stream
//! that is anything else is inserted as the `X'...'` literal a BLOB or
//! VARBINARY column stores as the bytes. Coming back over the text
//! protocol a BLOB is its raw bytes, which the row reader takes as text
//! and mangles, so a receive query that carries binary spells it out -
//! `SELECT id, CONCAT('0x', HEX(payload)) FROM inbox` - and a value in
//! either hex form, `X'...'` or `0x...`, is the bytes again on the way back.
//! Text that happens to be in one of those forms is read as bytes; that
//! is the price of one column carrying both, and it is paid on purpose.

use crate::text::{chars_of, from_utf8};
use vstd::prelude::*;
use vstd::slice::{slice_subrange, slice_to_vec};
use vstd::string::StringExecFns;
use vstd::utf8::{encode_utf8, valid_utf8};

verus! {

/// The lower-case digit that writes `value`.
pub open spec fn digit(value: nat) -> char {
    if value < 10 {
        ('0' as u32 + value) as char
    } else {
        ('a' as u32 + value - 10) as char
    }
}

/// What a digit is worth, in either case.
pub open spec fn digit_value(c: char) -> Option<nat> {
    if '0' <= c <= '9' {
        Some((c as u32 - '0' as u32) as nat)
    } else if 'a' <= c <= 'f' {
        Some((c as u32 - 'a' as u32 + 10) as nat)
    } else if 'A' <= c <= 'F' {
        Some((c as u32 - 'A' as u32 + 10) as nat)
    } else {
        None
    }
}

/// `byte` as its two lower-case hexadecimal digits.
pub open spec fn byte_digits(byte: u8) -> Seq<char> {
    seq![digit((byte / 16) as nat), digit((byte % 16) as nat)]
}

/// `bytes` as two lower-case digits a byte.
pub open spec fn hex_digits(bytes: Seq<u8>) -> Seq<char>
    decreases bytes.len(),
{
    if bytes.len() == 0 {
        seq![]
    } else {
        hex_digits(bytes.drop_last()) + byte_digits(bytes.last())
    }
}

/// The bytes that digits write, two digits a byte; `None` where a character
/// is no digit or one is left over.
pub open spec fn digits_value(digits: Seq<char>) -> Option<Seq<u8>>
    decreases digits.len(),
{
    if digits.len() == 0 {
        Some(seq![])
    } else if digits.len() == 1 {
        None
    } else {
        let count = digits.len() as int;
        match (
            digits_value(digits.take(count - 2)),
            digit_value(digits[count - 2]),
            digit_value(digits[count - 1]),
        ) {
            (Some(bytes), Some(high), Some(low)) => Some(bytes.push((16 * high + low) as u8)),
            _ => None,
        }
    }
}

/// `bytes` as the hexadecimal literal.
pub open spec fn literal_of(bytes: Seq<u8>) -> Seq<char> {
    "X'"@ + hex_digits(bytes) + "'"@
}

/// Text that opens as the quoted hex form does, in either case.
pub open spec fn opens_quoted(text: Seq<char>) -> bool {
    text.len() >= 2 && (text[0] == 'X' || text[0] == 'x') && text[1] == '\''
}

/// The bytes that text in a hex form names, and `None` for other text.
pub open spec fn hex_form(text: Seq<char>) -> Option<Seq<u8>> {
    if opens_quoted(text) {
        if text.len() >= 3 && text.last() == '\'' {
            digits_value(text.subrange(2, text.len() - 1))
        } else {
            None
        }
    } else if text.len() >= 2 && text[0] == '0' && text[1] == 'x' {
        digits_value(text.skip(2))
    } else {
        None
    }
}

/// The bytes that a column's text carries: those it names where it is in a
/// hex form, its own otherwise.
pub open spec fn carried(text: Seq<char>) -> Seq<u8> {
    match hex_form(text) {
        Some(bytes) => bytes,
        None => encode_utf8(text),
    }
}

/// Bytes that a text column holds: UTF-8 without a NUL.
pub open spec fn textual(bytes: Seq<u8>) -> bool {
    valid_utf8(bytes) && forall|i: int| 0 <= i < bytes.len() ==> bytes[i] != 0
}

/// The lower-case digit that writes `value`.
pub(crate) fn digit_of(value: u8) -> (c: char)
    requires
        value < 16,
    ensures
        c == digit(value as nat),
{
    if value < 10 {
        (48 + value) as char
    } else {
        (87 + value) as char
    }
}

/// What a digit is worth, in either case.
fn value_of(c: char) -> (value: Option<u8>)
    ensures
        match (value, digit_value(c)) {
            (Some(v), Some(expected)) => v == expected && v < 16,
            (None, None) => true,
            _ => false,
        },
{
    if '0' <= c && c <= '9' {
        Some((c as u32 - '0' as u32) as u8)
    } else if 'a' <= c && c <= 'f' {
        Some((c as u32 - 'a' as u32 + 10) as u8)
    } else if 'A' <= c && c <= 'F' {
        Some((c as u32 - 'A' as u32 + 10) as u8)
    } else {
        None
    }
}

/// `bytes` as lower-case hex, two digits a byte.
#[must_use]
pub fn hex(bytes: &[u8]) -> (text: String)
    ensures
        text@ == hex_digits(bytes@),
{
    let mut text = String::new();
    let mut at: usize = 0;
    assert(text@ =~= hex_digits(bytes@.take(0)));
    while at < bytes.len()
        invariant
            at <= bytes@.len(),
            text@ == hex_digits(bytes@.take(at as int)),
        decreases bytes@.len() - at,
    {
        let ghost before = text@;
        let byte: u8 = bytes[at];
        text.push(digit_of(byte / 16));
        text.push(digit_of(byte % 16));
        at += 1;
        assert(bytes@.take(at as int).drop_last() =~= bytes@.take(at - 1));
        assert(text@ =~= before + byte_digits(byte));
    }
    assert(bytes@.take(at as int) =~= bytes@);
    text
}

/// The bytes that digits in either case write.
fn unhex(digits: &[char]) -> (bytes: Option<Vec<u8>>)
    ensures
        match (bytes, digits_value(digits@)) {
            (Some(read), Some(expected)) => read@ == expected,
            (None, None) => true,
            _ => false,
        },
{
    let mut bytes: Vec<u8> = Vec::new();
    let mut at: usize = 0;
    assert(digits@.take(0) =~= seq![]);
    assert(bytes@ =~= seq![]);
    while digits.len() - at >= 2
        invariant
            at <= digits@.len(),
            at % 2 == 0,
            digits_value(digits@.take(at as int)) == Some(bytes@),
        decreases digits@.len() - at,
    {
        let ghost next = digits@.take(at + 2);
        assert(next.take(at as int) =~= digits@.take(at as int));
        match (value_of(digits[at]), value_of(digits[at + 1])) {
            (Some(high), Some(low)) => bytes.push(16 * high + low),
            _ => {
                proof {
                    broken_digits(digits@, at + 2);
                }
                return None;
            },
        }
        at += 2;
    }
    if at < digits.len() {
        proof {
            odd_digits(digits@);
        }
        return None;
    }
    assert(digits@.take(at as int) =~= digits@);
    Some(bytes)
}

/// Digits write nothing where the first of them, an even count, write
/// nothing.
proof fn broken_digits(digits: Seq<char>, count: int)
    requires
        0 <= count <= digits.len(),
        count % 2 == 0,
        digits_value(digits.take(count)) is None,
    ensures
        digits_value(digits) is None,
    decreases digits.len(),
{
    if digits.len() % 2 == 1 {
        odd_digits(digits);
    } else if count < digits.len() {
        let shorter = digits.take(digits.len() - 2);
        assert(shorter.take(count) =~= digits.take(count));
        broken_digits(shorter, count);
    } else {
        assert(digits.take(count) =~= digits);
    }
}

/// An odd count of digits writes nothing.
pub(crate) proof fn odd_digits(digits: Seq<char>)
    requires
        digits.len() % 2 == 1,
    ensures
        digits_value(digits) is None,
    decreases digits.len(),
{
    if digits.len() > 1 {
        odd_digits(digits.take(digits.len() - 2));
    }
}

/// True when a text column holds `bytes`: UTF-8 without a NUL.
#[must_use]
pub fn is_text(bytes: &[u8]) -> (text: bool)
    ensures
        text == textual(bytes@),
{
    let mut at: usize = 0;
    while at < bytes.len()
        invariant
            at <= bytes@.len(),
            forall|i: int| 0 <= i < at ==> bytes@[i] != 0,
        decreases bytes@.len() - at,
    {
        if bytes[at] == 0 {
            return false;
        }
        at += 1;
    }
    from_utf8(bytes).is_some()
}

/// `bytes` as the hexadecimal literal: `X'` then two lower-case digits a
/// byte, then `'`. Unquoted, as a literal goes into a statement.
#[must_use]
pub fn hex_literal(bytes: &[u8]) -> (text: String)
    ensures
        text@ == literal_of(bytes@),
{
    let mut text = "X'".to_owned();
    text.append(hex(bytes).as_str());
    text.append("'");
    text
}

/// The bytes that characters in a hex form name.
pub(crate) fn from_hex_chars(chars: &[char]) -> (bytes: Option<Vec<u8>>)
    ensures
        match (bytes, hex_form(chars@)) {
            (Some(read), Some(expected)) => read@ == expected,
            (None, None) => true,
            _ => false,
        },
{
    let count: usize = chars.len();
    if count >= 2 && (chars[0] == 'X' || chars[0] == 'x') && chars[1] == '\'' {
        if count >= 3 && chars[count - 1] == '\'' {
            unhex(slice_subrange(chars, 2, count - 1))
        } else {
            None
        }
    } else if count >= 2 && chars[0] == '0' && chars[1] == 'x' {
        let digits = slice_subrange(chars, 2, count);
        assert(digits@ =~= chars@.skip(2));
        unhex(digits)
    } else {
        None
    }
}

/// The bytes a value in a hex form names - `X'...'`, `x'...'` or `0x...` -
/// or `None` when `text` is not in one.
#[must_use]
pub fn from_hex_literal(text: &str) -> (bytes: Option<Vec<u8>>)
    ensures
        match (bytes, hex_form(text@)) {
            (Some(read), Some(expected)) => read@ == expected,
            (None, None) => true,
            _ => false,
        },
{
    from_hex_chars(chars_of(text).as_slice())
}

/// A column value as the bytes it carries: decoded when in a hex form,
/// the text's bytes otherwise.
#[must_use]
pub fn column_bytes(text: String) -> (bytes: Vec<u8>)
    ensures
        bytes@ == carried(text@),
{
    match from_hex_literal(text.as_str()) {
        Some(bytes) => bytes,
        None => slice_to_vec(text.as_str().as_bytes()),
    }
}

/// A digit is worth what it was written for.
pub(crate) proof fn digit_read_back(value: nat)
    requires
        value < 16,
    ensures
        digit_value(digit(value)) == Some(value),
{
}

/// Digits are read back as the bytes they were written for.
pub proof fn hex_digits_read_back(bytes: Seq<u8>)
    ensures
        digits_value(hex_digits(bytes)) == Some(bytes),
    decreases bytes.len(),
{
    if bytes.len() > 0 {
        let first = bytes.drop_last();
        let byte = bytes.last();
        let all = hex_digits(bytes);
        hex_digits_read_back(first);
        digit_read_back((byte / 16) as nat);
        digit_read_back((byte % 16) as nat);
        assert(all.take(all.len() - 2) =~= hex_digits(first));
        assert(first.push(byte) =~= bytes);
    }
}

/// Bytes come back from the hexadecimal literal they were written as, and a
/// column that holds it carries them.
pub proof fn hex_literal_read_back(bytes: Seq<u8>)
    ensures
        hex_form(literal_of(bytes)) == Some(bytes),
        carried(literal_of(bytes)) == bytes,
{
    reveal_strlit("X'");
    reveal_strlit("'");
    let text = literal_of(bytes);
    assert(text.subrange(2, text.len() - 1) =~= hex_digits(bytes));
    hex_digits_read_back(bytes);
}

/// Bytes come back from `0x` and their digits, as a query can spell them
/// out.
pub proof fn prefixed_hex_read_back(bytes: Seq<u8>)
    ensures
        hex_form("0x"@ + hex_digits(bytes)) == Some(bytes),
        carried("0x"@ + hex_digits(bytes)) == bytes,
{
    reveal_strlit("0x");
    let text = "0x"@ + hex_digits(bytes);
    assert(text.skip(2) =~= hex_digits(bytes));
    hex_digits_read_back(bytes);
}

} // verus!
