//! The one statement the far-end [`crate::Session`] reads rather than
//! answers blindly: `INSERT INTO t (c) VALUES (...)`, taken apart so the
//! value a client sent comes back as the Stream it was - the inverse of
//! [`crate::quote_literal`] and of the `X'...'` literal, with the escapes
//! the server would undo undone here.

use crate::hex::from_hex_chars;
use crate::hex::{hex_form, opens_quoted};
use crate::scan::{after_space, alphanumeric, before, opens_with};
use crate::scan::{find, starts_with, trim_start};
use crate::text::{chars_of, text_of};
use vstd::prelude::*;
use vstd::slice::{slice_subrange, slice_to_vec};
use vstd::utf8::encode_utf8;

verus! {

/// What an escaped character stands for. A LIKE wildcard keeps its
/// backslash.
pub open spec fn unescaped(c: char) -> Seq<char> {
    match c {
        '0' => seq!['\0'],
        'n' => seq!['\n'],
        'r' => seq!['\r'],
        't' => seq!['\t'],
        'b' => seq!['\u{8}'],
        'Z' => seq!['\u{1a}'],
        '%' => seq!['\\', '%'],
        '_' => seq!['\\', '_'],
        _ => seq![c],
    }
}

/// What was read with `first` read before it.
pub open spec fn preceded(
    first: Seq<char>,
    read: Option<(Seq<char>, Seq<char>)>,
) -> Option<(Seq<char>, Seq<char>)> {
    match read {
        Some((value, rest)) => Some((first + value, rest)),
        None => None,
    }
}

/// The text of a quoted string after its opening quote, and what follows the
/// closing one; `None` where it is never closed. A quote in it is doubled or
/// escaped.
pub open spec fn unquoted(text: Seq<char>) -> Option<(Seq<char>, Seq<char>)>
    decreases text.len(),
{
    if text.len() == 0 {
        None
    } else if text[0] == '\'' {
        if text.len() >= 2 && text[1] == '\'' {
            preceded(seq!['\''], unquoted(text.skip(2)))
        } else {
            Some((seq![], text.skip(1)))
        }
    } else if text[0] == '\\' {
        if text.len() >= 2 {
            preceded(unescaped(text[1]), unquoted(text.skip(2)))
        } else {
            None
        }
    } else {
        preceded(seq![text[0]], unquoted(text.skip(1)))
    }
}

/// The bytes of the literal that text opens with, and what follows it: a
/// quoted string, or a hexadecimal literal up to its first closing quote.
pub open spec fn literal_at(text: Seq<char>) -> Option<(Seq<u8>, Seq<char>)> {
    if opens_quoted(text) {
        let end = before(text.skip(2), '\'') + 3;
        if end > text.len() {
            None
        } else {
            match hex_form(text.take(end as int)) {
                Some(bytes) => Some((bytes, text.skip(end as int))),
                None => None,
            }
        }
    } else if text.len() > 0 && text[0] == '\'' {
        match unquoted(text.skip(1)) {
            Some((value, rest)) => Some((encode_utf8(value), rest)),
            None => None,
        }
    } else {
        None
    }
}

/// A character of a bare identifier.
pub open spec fn in_identifier(c: char) -> bool {
    alphanumeric(c) || c == '_' || c == '.'
}

/// How many characters of a bare identifier text opens with.
pub open spec fn bare_length(text: Seq<char>) -> nat
    decreases text.len(),
{
    if text.len() > 0 && in_identifier(text[0]) {
        1 + bare_length(text.drop_first())
    } else {
        0
    }
}

/// The identifier that text opens with, after white space, and what follows
/// it: bare, or in backticks up to the first that closes it.
pub open spec fn identifier_at(text: Seq<char>) -> Option<(Seq<char>, Seq<char>)> {
    let text = after_space(text);
    if text.len() > 0 && text[0] == '`' {
        let quoted = text.skip(1);
        let end = before(quoted, '`') as int;
        if end < quoted.len() {
            Some((quoted.take(end), quoted.skip(end + 1)))
        } else {
            None
        }
    } else {
        let end = bare_length(text) as int;
        if end > 0 {
            Some((text.take(end), text.skip(end)))
        } else {
            None
        }
    }
}

/// What follows `word`, an upper-case word, where text opens with it after
/// white space, in either case, as a word of its own.
pub open spec fn after_word(text: Seq<char>, word: Seq<char>) -> Option<Seq<char>> {
    let text = after_space(text);
    if opens_with(text, word) && !(text.len() > word.len() && in_identifier(
        text[word.len() as int],
    )) {
        Some(text.skip(word.len() as int))
    } else {
        None
    }
}

/// What follows `mark`, where text opens with it after white space.
pub open spec fn after_mark(text: Seq<char>, mark: char) -> Option<Seq<char>> {
    let text = after_space(text);
    if text.len() > 0 && text[0] == mark {
        Some(text.skip(1))
    } else {
        None
    }
}

/// Text with nothing in it but white space and, at most once, the `;` that
/// ends a statement.
pub open spec fn ends_statement(text: Seq<char>) -> bool {
    match after_mark(text, ';') {
        Some(rest) => after_space(rest).len() == 0,
        None => after_space(text).len() == 0,
    }
}

/// An identifier in brackets and what follows it.
pub open spec fn bracketed_identifier(text: Seq<char>) -> Option<(Seq<char>, Seq<char>)> {
    match after_mark(text, '(') {
        None => None,
        Some(text) => match identifier_at(text) {
            None => None,
            Some((name, text)) => match after_mark(text, ')') {
                None => None,
                Some(text) => Some((name, text)),
            },
        },
    }
}

/// A literal in brackets and what follows it.
pub open spec fn bracketed_literal(text: Seq<char>) -> Option<(Seq<u8>, Seq<char>)> {
    match after_mark(text, '(') {
        None => None,
        Some(text) => match literal_at(after_space(text)) {
            None => None,
            Some((value, text)) => match after_mark(text, ')') {
                None => None,
                Some(text) => Some((value, text)),
            },
        },
    }
}

/// The table that an insert opens with, and what follows it.
pub open spec fn insert_table(text: Seq<char>) -> Option<(Seq<char>, Seq<char>)> {
    match after_word(text, "INSERT"@) {
        None => None,
        Some(text) => match after_word(text, "INTO"@) {
            None => None,
            Some(text) => identifier_at(text),
        },
    }
}

/// The table, the column and the value of `INSERT INTO <table> (<column>)
/// VALUES (<literal>)`, with white space anywhere between; `None` for any
/// other statement.
pub open spec fn insert_of(statement: Seq<char>) -> Option<(Seq<char>, Seq<char>, Seq<u8>)> {
    match insert_table(statement) {
        None => None,
        Some((table, text)) => match bracketed_identifier(text) {
            None => None,
            Some((column, text)) => match after_word(text, "VALUES"@) {
                None => None,
                Some(text) => match bracketed_literal(text) {
                    None => None,
                    Some((value, text)) => if ends_statement(text) {
                        Some((table, column, value))
                    } else {
                        None
                    },
                },
            },
        },
    }
}

/// What was read and what was to be read are the same, or both are nothing.
pub open spec fn reads_as<T: View>(
    read: Option<(T, &[char])>,
    model: Option<(T::V, Seq<char>)>,
) -> bool {
    match (read, model) {
        (Some((value, rest)), Some((expected, left))) => value@ == expected && rest@ == left,
        (None, None) => true,
        _ => false,
    }
}

/// The rest of text and what was to be left of it are the same, or both are
/// nothing.
pub open spec fn leaves(rest: Option<&[char]>, model: Option<Seq<char>>) -> bool {
    match (rest, model) {
        (Some(rest), Some(left)) => rest@ == left,
        (None, None) => true,
        _ => false,
    }
}

/// `text` from `at` on.
fn from<'a>(text: &'a [char], at: usize) -> (rest: &'a [char])
    requires
        at <= text@.len(),
    ensures
        rest@ == text@.skip(at as int),
{
    let rest = slice_subrange(text, at, text.len());
    assert(rest@ =~= text@.skip(at as int));
    rest
}

/// Adds what the escaped `c` stands for to `value`.
fn push_unescaped(value: &mut String, c: char)
    ensures
        final(value)@ == old(value)@ + unescaped(c),
{
    let ghost before = value@;
    match c {
        '0' => value.push('\0'),
        'n' => value.push('\n'),
        'r' => value.push('\r'),
        't' => value.push('\t'),
        'b' => value.push('\u{8}'),
        'Z' => value.push('\u{1a}'),
        // A LIKE wildcard keeps its backslash, as the server keeps it.
        '%' => {
            value.push('\\');
            value.push('%');
        },
        '_' => {
            value.push('\\');
            value.push('_');
        },
        _ => value.push(c),
    }
    assert(value@ =~= before + unescaped(c));
}

/// The text of a quoted string after its opening quote, and what follows it.
fn quoted<'a>(text: &'a [char]) -> (read: Option<(String, &'a [char])>)
    ensures
        reads_as(read, unquoted(text@)),
{
    let mut value = String::new();
    let mut at: usize = 0;
    assert(text@.skip(0) =~= text@);
    proof {
        if let Some((rest, left)) = unquoted(text@) {
            assert(value@ + rest =~= rest);
        }
    }
    while at < text.len()
        invariant
            at <= text@.len(),
            unquoted(text@) == preceded(value@, unquoted(text@.skip(at as int))),
        decreases text@.len() - at,
    {
        let ghost before = value@;
        let ghost left = text@.skip(at as int);
        let c: char = text[at];
        if c == '\'' {
            if at + 1 < text.len() && text[at + 1] == '\'' {
                value.push('\'');
                at += 2;
                proof {
                    assert(left.skip(2) =~= text@.skip(at as int));
                    preceded_twice(before, seq!['\''], unquoted(text@.skip(at as int)));
                    assert(value@ =~= before + seq!['\'']);
                }
            } else {
                assert(left.skip(1) =~= text@.skip(at + 1));
                assert(value@ + Seq::<char>::empty() =~= value@);
                return Some((value, from(text, at + 1)));
            }
        } else if c == '\\' {
            if at + 1 >= text.len() {
                return None;
            }
            let escaped: char = text[at + 1];
            push_unescaped(&mut value, escaped);
            at += 2;
            proof {
                assert(left.skip(2) =~= text@.skip(at as int));
                preceded_twice(before, unescaped(escaped), unquoted(text@.skip(at as int)));
            }
        } else {
            value.push(c);
            at += 1;
            proof {
                assert(left.skip(1) =~= text@.skip(at as int));
                preceded_twice(before, seq![c], unquoted(text@.skip(at as int)));
                assert(value@ =~= before + seq![c]);
            }
        }
    }
    None
}

/// What is read after two parts is read after them as one.
proof fn preceded_twice(
    first: Seq<char>,
    second: Seq<char>,
    read: Option<(Seq<char>, Seq<char>)>,
)
    ensures
        preceded(first, preceded(second, read)) == preceded(first + second, read),
{
    if let Some((value, _)) = read {
        assert(first + (second + value) =~= first + second + value);
    }
}

/// One literal - `'...'` with backslash escapes, or `X'...'` - and what
/// follows it.
fn literal<'a>(text: &'a [char]) -> (read: Option<(Vec<u8>, &'a [char])>)
    ensures
        reads_as(read, literal_at(text@)),
{
    if text.len() >= 2 && (text[0] == 'X' || text[0] == 'x') && text[1] == '\'' {
        let digits = from(text, 2);
        let count: usize = find(digits, '\'');
        if count >= digits.len() {
            return None;
        }
        let end: usize = count + 3;
        let form = slice_subrange(text, 0, end);
        assert(form@ =~= text@.take(end as int));
        match from_hex_chars(form) {
            Some(bytes) => Some((bytes, from(text, end))),
            None => None,
        }
    } else if text.len() > 0 && text[0] == '\'' {
        match quoted(from(text, 1)) {
            Some((value, rest)) => Some((slice_to_vec(value.as_str().as_bytes()), rest)),
            None => None,
        }
    } else {
        None
    }
}

/// One identifier, bare or in backticks, and what follows it.
fn identifier<'a>(text: &'a [char]) -> (read: Option<(String, &'a [char])>)
    ensures
        reads_as(read, identifier_at(text@)),
{
    let text = trim_start(text);
    if text.len() > 0 && text[0] == '`' {
        let quoted = from(text, 1);
        let end: usize = find(quoted, '`');
        if end >= quoted.len() {
            return None;
        }
        let name = slice_subrange(quoted, 0, end);
        assert(name@ =~= quoted@.take(end as int));
        return Some((text_of(name), from(quoted, end + 1)));
    }
    let mut end: usize = 0;
    assert(text@.skip(0) =~= text@);
    while end < text.len() && (text[end].is_alphanumeric() || text[end] == '_' || text[end] == '.')
        invariant
            end <= text@.len(),
            bare_length(text@) == end + bare_length(text@.skip(end as int)),
        decreases text@.len() - end,
    {
        assert(text@.skip(end as int).drop_first() =~= text@.skip(end + 1));
        end += 1;
    }
    if end == 0 {
        return None;
    }
    let name = slice_subrange(text, 0, end);
    assert(name@ =~= text@.take(end as int));
    Some((text_of(name), from(text, end)))
}

/// What follows `word`, where `text` opens with it.
fn keyword<'a>(text: &'a [char], word: &str) -> (rest: Option<&'a [char]>)
    ensures
        leaves(rest, after_word(text@, word@)),
{
    let text = trim_start(text);
    let word = chars_of(word);
    if !starts_with(text, word.as_slice()) {
        return None;
    }
    let end: usize = word.len();
    if end < text.len() && (text[end].is_alphanumeric() || text[end] == '_' || text[end] == '.') {
        return None;
    }
    Some(from(text, end))
}

/// What follows `mark`, where `text` opens with it.
fn punctuation<'a>(text: &'a [char], mark: char) -> (rest: Option<&'a [char]>)
    ensures
        leaves(rest, after_mark(text@, mark)),
{
    let text = trim_start(text);
    if text.len() > 0 && text[0] == mark {
        Some(from(text, 1))
    } else {
        None
    }
}

/// True where `text` holds nothing but the end of a statement.
fn at_end(text: &[char]) -> (ended: bool)
    ensures
        ended == ends_statement(text@),
{
    match punctuation(text, ';') {
        Some(rest) => trim_start(rest).len() == 0,
        None => trim_start(text).len() == 0,
    }
}

/// `INSERT INTO <table> (<column>) VALUES (<literal>)` taken apart: the
/// table, the column and the value - a quoted string with its escapes
/// undone, or the bytes of an `X'...'` literal. Identifiers may be in
/// backticks; anything else is `None`.
#[must_use]
pub fn parse_insert(statement: &str) -> (parsed: Option<(String, String, Vec<u8>)>)
    ensures
        match (parsed, insert_of(statement@)) {
            (Some((table, column, value)), Some(expected)) => table@ == expected.0 && column@
                == expected.1 && value@ == expected.2,
            (None, None) => true,
            _ => false,
        },
{
    let text = chars_of(statement);
    let rest = keyword(text.as_slice(), "INSERT")?;
    let rest = keyword(rest, "INTO")?;
    let (table, rest) = identifier(rest)?;
    let rest = punctuation(rest, '(')?;
    let (column, rest) = identifier(rest)?;
    let rest = punctuation(rest, ')')?;
    let rest = keyword(rest, "VALUES")?;
    let rest = punctuation(rest, '(')?;
    let (value, rest) = literal(trim_start(rest))?;
    let rest = punctuation(rest, ')')?;
    if at_end(rest) {
        Some((table, column, value))
    } else {
        None
    }
}

} // verus!
