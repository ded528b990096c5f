//! What holds of text and bytes as a statement spells them.

use crate::client::{doubled, escaped, escaped_text, quoted_identifier, quoted_literal};
use crate::hex::{
    byte_digits, carried, digit_value, digits_value, hex_digits, hex_form, literal_of, textual,
};
use crate::insert::{literal_at, preceded, unescaped, unquoted};
use crate::scan::before_is;
use crate::text::decimal_text;
use crate::{insert_text, value_literal};
use vstd::prelude::*;
use vstd::utf8::{decode_utf8, encode_utf8, valid_utf8};

verus! {

// Quoting.

/// A string literal escapes six characters and no other: the quote, the
/// backslash, NUL, the two line ends and U+001A, each as a backslash and one
/// character; any other is written as itself, between two quotes.
pub proof fn six_characters_are_escaped(c: char)
    ensures
        quoted_literal(seq!['\'']) == seq!['\'', '\\', '\'', '\''],
        quoted_literal(seq!['\\']) == seq!['\'', '\\', '\\', '\''],
        quoted_literal(seq!['\0']) == seq!['\'', '\\', '0', '\''],
        quoted_literal(seq!['\n']) == seq!['\'', '\\', 'n', '\''],
        quoted_literal(seq!['\r']) == seq!['\'', '\\', 'r', '\''],
        quoted_literal(seq!['\u{1a}']) == seq!['\'', '\\', 'Z', '\''],
        c != '\'' && c != '\\' && c != '\0' && c != '\n' && c != '\r' && c != '\u{1a}'
            ==> quoted_literal(seq![c]) == seq!['\'', c, '\''],
{
    one_character_quoted('\'');
    one_character_quoted('\\');
    one_character_quoted('\0');
    one_character_quoted('\n');
    one_character_quoted('\r');
    one_character_quoted('\u{1a}');
    one_character_quoted(c);
    assert(seq!['\''] + seq!['\\', '\''] + seq!['\''] =~= seq!['\'', '\\', '\'', '\'']);
    assert(seq!['\''] + seq!['\\', '\\'] + seq!['\''] =~= seq!['\'', '\\', '\\', '\'']);
    assert(seq!['\''] + seq!['\\', '0'] + seq!['\''] =~= seq!['\'', '\\', '0', '\'']);
    assert(seq!['\''] + seq!['\\', 'n'] + seq!['\''] =~= seq!['\'', '\\', 'n', '\'']);
    assert(seq!['\''] + seq!['\\', 'r'] + seq!['\''] =~= seq!['\'', '\\', 'r', '\'']);
    assert(seq!['\''] + seq!['\\', 'Z'] + seq!['\''] =~= seq!['\'', '\\', 'Z', '\'']);
    assert(seq!['\''] + seq![c] + seq!['\''] =~= seq!['\'', c, '\'']);
}

/// The literal of one character.
proof fn one_character_quoted(c: char)
    ensures
        quoted_literal(seq![c]) == seq!['\''] + escaped(c) + seq!['\''],
{
    reveal_with_fuel(escaped_text, 2);
    assert(seq![c].drop_first() =~= seq![]);
    assert(escaped_text(seq![c]) =~= escaped(c));
}

/// Two texts are quoted one after the other: the literal of both is the
/// literal of the first without its closing quote, and that of the second
/// without its opening one.
pub proof fn texts_are_quoted_one_after_another(first: Seq<char>, second: Seq<char>)
    ensures
        quoted_literal(seq![]) == seq!['\'', '\''],
        quoted_literal(first + second) == quoted_literal(first).drop_last() + quoted_literal(
            second,
        ).skip(1),
{
    escaped_in_order(first, second);
    assert(escaped_text(seq![]) =~= seq![]);
    assert(quoted_literal(seq![]) =~= seq!['\'', '\'']);
    assert(quoted_literal(first).drop_last() =~= seq!['\''] + escaped_text(first));
    assert(quoted_literal(second).skip(1) =~= escaped_text(second) + seq!['\'']);
    assert(quoted_literal(first + second) =~= quoted_literal(first).drop_last() + quoted_literal(
        second,
    ).skip(1));
}

/// Escaping keeps texts in order.
proof fn escaped_in_order(first: Seq<char>, second: Seq<char>)
    ensures
        escaped_text(first + second) == escaped_text(first) + escaped_text(second),
    decreases first.len(),
{
    if first.len() == 0 {
        assert(first + second =~= second);
        assert(escaped_text(first) + escaped_text(second) =~= escaped_text(second));
    } else {
        let left = first.drop_first();
        escaped_in_order(left, second);
        assert((first + second).drop_first() =~= left + second);
        assert(escaped(first[0]) + (escaped_text(left) + escaped_text(second)) =~= escaped(
            first[0],
        ) + escaped_text(left) + escaped_text(second));
    }
}

/// An identifier is its name between backticks, each backtick in it twice and
/// every other character once.
pub proof fn only_backticks_are_doubled(c: char, first: Seq<char>, second: Seq<char>)
    ensures
        quoted_identifier(seq![]) == seq!['`', '`'],
        quoted_identifier(seq!['`']) == seq!['`', '`', '`', '`'],
        c != '`' ==> quoted_identifier(seq![c]) == seq!['`', c, '`'],
        quoted_identifier(first + second) == quoted_identifier(first).drop_last()
            + quoted_identifier(second).skip(1),
{
    reveal_with_fuel(doubled, 2);
    assert(seq![c].drop_first() =~= seq![]);
    assert(seq!['`'].drop_first() =~= seq![]);
    assert(doubled(seq![]) =~= seq![]);
    assert(quoted_identifier(seq![]) =~= seq!['`', '`']);
    assert(quoted_identifier(seq!['`']) =~= seq!['`', '`', '`', '`']);
    if c != '`' {
        assert(quoted_identifier(seq![c]) =~= seq!['`', c, '`']);
    }
    doubled_in_order(first, second);
    assert(quoted_identifier(first + second) =~= quoted_identifier(first).drop_last()
        + quoted_identifier(second).skip(1));
}

/// Doubling keeps texts in order.
proof fn doubled_in_order(first: Seq<char>, second: Seq<char>)
    ensures
        doubled(first + second) == doubled(first) + doubled(second),
    decreases first.len(),
{
    if first.len() == 0 {
        assert(first + second =~= second);
        assert(doubled(first) + doubled(second) =~= doubled(second));
    } else {
        let left = first.drop_first();
        doubled_in_order(left, second);
        assert((first + second).drop_first() =~= left + second);
        assert((first + second)[0] == first[0]);
        assert(doubled(first + second) =~= doubled(first) + doubled(second));
    }
}

// Unquoting.

/// A backslash before `0`, `n`, `r`, `t`, `b` or `Z` stands for the character
/// of that name; before `%` or `_` it is kept; before any other character it
/// stands for that character itself.
pub proof fn escapes_stand_for_their_character(
    c: char,
    more: Seq<char>,
    value: Seq<char>,
    rest: Seq<char>,
)
    ensures
        ({
            let spelled = literal_at(seq!['\'', '\\', c, '\''] + rest);
            let meant = if c == '0' {
                seq!['\0']
            } else if c == 'n' {
                seq!['\n']
            } else if c == 'r' {
                seq!['\r']
            } else if c == 't' {
                seq!['\t']
            } else if c == 'b' {
                seq!['\u{8}']
            } else if c == 'Z' {
                seq!['\u{1a}']
            } else if c == '%' || c == '_' {
                seq!['\\', c]
            } else {
                seq![c]
            };
            &&& rest.len() == 0 || rest[0] != '\'' ==> spelled == Some((encode_utf8(meant), rest))
            &&& unquoted(more) == Some((value, rest)) ==> unquoted(seq!['\\', c] + more) == Some(
                (meant + value, rest),
            )
            &&& unquoted(more) is None ==> unquoted(seq!['\\', c] + more) is None
        }),
{
    escape_read(c, more);
    if rest.len() == 0 || rest[0] != '\'' {
        let all = seq!['\'', '\\', c, '\''] + rest;
        let close = seq!['\''] + rest;
        assert(all.skip(1) =~= seq!['\\', c] + close);
        close_read(rest);
        escape_read(c, close);
        assert(unescaped(c) + Seq::<char>::empty() =~= unescaped(c));
    }
}

/// A quote that no other follows closes a string.
proof fn close_read(rest: Seq<char>)
    requires
        rest.len() == 0 || rest[0] != '\'',
    ensures
        unquoted(seq!['\''] + rest) == Some((Seq::<char>::empty(), rest)),
{
    assert((seq!['\''] + rest).skip(1) =~= rest);
}

/// An escape is read before what follows it.
proof fn escape_read(c: char, rest: Seq<char>)
    ensures
        unquoted(seq!['\\', c] + rest) == preceded(unescaped(c), unquoted(rest)),
{
    assert((seq!['\\', c] + rest).skip(2) =~= rest);
}

/// A string is read to its closing quote: a character that is neither quote
/// nor backslash is itself, two quotes are one, and a string that is never
/// closed is none.
pub proof fn strings_are_read_to_their_closing_quote(
    plain: Seq<char>,
    value: Seq<char>,
    more: Seq<char>,
    rest: Seq<char>,
)
    requires
        forall|i: int| 0 <= i < plain.len() ==> plain[i] != '\'' && plain[i] != '\\',
    ensures
        rest.len() == 0 || rest[0] != '\'' ==> literal_at(
            seq!['\''] + (plain + (seq!['\''] + rest)),
        ) == Some((encode_utf8(plain), rest)),
        literal_at(seq!['\''] + plain) is None,
        literal_at(seq!['\''] + (plain + seq!['\\'])) is None,
        unquoted(more) == Some((value, rest)) ==> unquoted(seq!['\'', '\''] + more) == Some(
            (seq!['\''] + value, rest),
        ),
        unquoted(more) == Some((value, rest)) ==> unquoted(plain + more) == Some(
            (plain + value, rest),
        ),
        unquoted(more) is None ==> unquoted(seq!['\'', '\''] + more) is None && unquoted(
            plain + more,
        ) is None,
{
    assert((seq!['\''] + (plain + (seq!['\''] + rest))).skip(1) =~= plain + (seq!['\''] + rest));
    assert((seq!['\''] + plain).skip(1) =~= plain);
    assert((seq!['\''] + (plain + seq!['\\'])).skip(1) =~= plain + seq!['\\']);
    assert((seq!['\'', '\''] + more).skip(2) =~= more);
    plain_read(plain, more);
    plain_read(plain, seq!['\''] + rest);
    plain_read(plain, seq![]);
    plain_read(plain, seq!['\\']);
    assert(plain + Seq::<char>::empty() =~= plain);
    if rest.len() == 0 || rest[0] != '\'' {
        close_read(rest);
    }
}

/// Characters that are neither quote nor backslash are read as themselves.
proof fn plain_read(plain: Seq<char>, more: Seq<char>)
    requires
        forall|i: int| 0 <= i < plain.len() ==> plain[i] != '\'' && plain[i] != '\\',
    ensures
        unquoted(plain + more) == preceded(plain, unquoted(more)),
    decreases plain.len(),
{
    if plain.len() == 0 {
        assert(plain + more =~= more);
        if let Some((value, _)) = unquoted(more) {
            assert(plain + value =~= value);
        }
    } else {
        let left = plain.drop_first();
        plain_read(left, more);
        assert((plain + more).skip(1) =~= left + more);
        if let Some((value, _)) = unquoted(more) {
            assert(seq![plain[0]] + (left + value) =~= plain + value);
        }
    }
}

/// What opens with neither a quote nor the hexadecimal mark is no literal.
pub proof fn other_openings_are_no_literal(text: Seq<char>)
    requires
        text.len() == 0 || text[0] != '\'' && !(text.len() >= 2 && (text[0] == 'X' || text[0] == 'x')
            && text[1] == '\''),
    ensures
        literal_at(text) is None,
{
}

/// A hexadecimal literal in a statement, in either case, is read to its first
/// closing quote; one that is never closed, or whose digits are none, is no
/// literal.
pub proof fn hexadecimal_literals_are_read_to_their_quote(
    mark: char,
    digits: Seq<char>,
    rest: Seq<char>,
)
    requires
        mark == 'X' || mark == 'x',
        forall|i: int| 0 <= i < digits.len() ==> digits[i] != '\'',
    ensures
        literal_at(seq![mark, '\''] + (digits + (seq!['\''] + rest))) == (match digits_value(
            digits,
        ) {
            Some(bytes) => Some((bytes, rest)),
            None => None,
        }),
        literal_at(seq![mark, '\''] + digits) is None,
{
    let all = seq![mark, '\''] + (digits + (seq!['\''] + rest));
    let body = digits + (seq!['\''] + rest);
    assert(all.skip(2) =~= body);
    before_is(body, '\'', digits.len());
    let end = digits.len() as int + 3;
    let form = all.take(end);
    assert(form =~= seq![mark, '\''] + digits + seq!['\'']);
    assert(form.subrange(2, form.len() - 1) =~= digits);
    assert(all.skip(end) =~= rest);
    assert((seq![mark, '\''] + digits).skip(2) =~= digits);
    before_is(digits, '\'', digits.len());
}

// Hexadecimal forms.

/// A byte is two digits, its sixteens and its ones, in lower case; and in
/// either case they are worth it.
pub proof fn bytes_are_two_digits(byte: u8, bytes: Seq<u8>, more: Seq<u8>)
    ensures
        hex_digits(seq![]) == Seq::<char>::empty(),
        hex_digits(seq![byte]).len() == 2,
        hex_digits(seq![byte])[0] as u32 == (if byte / 16 < 10 {
            48 + byte / 16
        } else {
            87 + byte / 16
        }),
        hex_digits(seq![byte])[1] as u32 == (if byte % 16 < 10 {
            48 + byte % 16
        } else {
            87 + byte % 16
        }),
        hex_digits(bytes + more) == hex_digits(bytes) + hex_digits(more),
    decreases more.len(),
{
    reveal_with_fuel(hex_digits, 2);
    assert(seq![byte].drop_last() =~= seq![]);
    assert(hex_digits(seq![byte]) =~= byte_digits(byte));
    if more.len() == 0 {
        assert(bytes + more =~= bytes);
        assert(hex_digits(bytes) + hex_digits(more) =~= hex_digits(bytes));
    } else {
        let first = more.drop_last();
        bytes_are_two_digits(byte, bytes, first);
        assert((bytes + more).drop_last() =~= bytes + first);
        assert((bytes + more).last() == more.last());
        assert(hex_digits(bytes + more) =~= hex_digits(bytes) + hex_digits(more));
    }
}

/// Digits are worth what they are called, in either case, and no other
/// character is a digit.
pub proof fn digits_are_worth_their_name(c: char)
    ensures
        48 <= c as u32 <= 57 ==> digit_value(c) == Some((c as u32 - 48) as nat),
        97 <= c as u32 <= 102 ==> digit_value(c) == Some((c as u32 - 87) as nat),
        65 <= c as u32 <= 70 ==> digit_value(c) == Some((c as u32 - 55) as nat),
        !(48 <= c as u32 <= 57 || 97 <= c as u32 <= 102 || 65 <= c as u32 <= 70) ==> digit_value(c)
            is None,
{
}

/// Digits are bytes two by two: nothing is no bytes, two more digits are one
/// more byte, one digit too many or a character that is no digit spoils them
/// all.
pub proof fn digits_are_bytes_two_by_two(digits: Seq<char>, high: char, low: char)
    requires
        digits.len() % 2 == 0,
    ensures
        digits_value(seq![]) == Some(Seq::<u8>::empty()),
        digits_value(digits.push(high)) is None,
        match (digits_value(digits), digit_value(high), digit_value(low)) {
            (Some(bytes), Some(sixteens), Some(ones)) => digits_value(digits.push(high).push(low))
                == Some(bytes.push((16 * sixteens + ones) as u8)),
            _ => digits_value(digits.push(high).push(low)) is None,
        },
{
    let all = digits.push(high).push(low);
    assert(all.take(all.len() - 2) =~= digits);
    crate::hex::odd_digits(digits.push(high));
}

/// Text is in a hex form as `X'` or `x'`, digits and a quote, or as `0x` and
/// digits, and names the bytes of its digits; other text names none and
/// carries its own.
pub proof fn hex_forms_are_these_three(mark: char, digits: Seq<char>, text: Seq<char>)
    requires
        mark == 'X' || mark == 'x',
    ensures
        hex_form(seq![mark, '\''] + digits + seq!['\'']) == digits_value(digits),
        hex_form(seq!['0', 'x'] + digits) == digits_value(digits),
        !(digits.len() > 0 && digits.last() == '\'') ==> hex_form(seq![mark, '\''] + digits)
            is None,
        text.len() < 2 || !((text[0] == 'X' || text[0] == 'x') && text[1] == '\'' || text[0] == '0'
            && text[1] == 'x') ==> hex_form(text) is None,
        hex_form(text) is None ==> carried(text) == encode_utf8(text),
        hex_form(text) matches Some(bytes) ==> carried(text) == bytes,
{
    let quoted = seq![mark, '\''] + digits + seq!['\''];
    assert(quoted.subrange(2, quoted.len() - 1) =~= digits);
    assert((seq!['0', 'x'] + digits).skip(2) =~= digits);
    let open = seq![mark, '\''] + digits;
    if digits.len() > 0 {
        assert(open.last() == digits.last());
    }
}

/// A hexadecimal literal is `X'`, the digits of the bytes, and a quote.
pub proof fn hexadecimal_literals_are_these_characters(bytes: Seq<u8>)
    ensures
        literal_of(bytes) == seq!['X', '\''] + hex_digits(bytes) + seq!['\''],
{
    reveal_strlit("X'");
    reveal_strlit("'");
    assert("X'"@ =~= seq!['X', '\'']);
    assert("'"@ =~= seq!['\'']);
}

/// Bytes are text where they are UTF-8 and none of them is zero.
pub proof fn text_is_utf8_without_a_zero(bytes: Seq<u8>)
    ensures
        textual(bytes) <==> valid_utf8(bytes) && !bytes.contains(0u8),
{
    if textual(bytes) {
        if bytes.contains(0u8) {
            let i = choose|i: int| 0 <= i < bytes.len() && bytes[i] == 0u8;
            assert(bytes[i] != 0);
        }
    }
    if !bytes.contains(0u8) {
        assert forall|i: int| 0 <= i < bytes.len() implies bytes[i] != 0 by {
            assert(bytes.contains(bytes[i]));
        }
    }
}

// Statements.

/// A send writes `INSERT INTO`, the table and the column in backticks, and
/// the value: text as a string literal, anything else in hexadecimal.
pub proof fn sends_write_this_statement(table: Seq<char>, column: Seq<char>, bytes: Seq<u8>)
    ensures
        insert_text(table, column, bytes) == "INSERT INTO "@ + quoted_identifier(table) + " ("@
            + quoted_identifier(column) + ") VALUES ("@ + value_literal(bytes) + ")"@,
        valid_utf8(bytes) && !bytes.contains(0u8) ==> value_literal(bytes) == quoted_literal(
            decode_utf8(bytes),
        ),
        !valid_utf8(bytes) || bytes.contains(0u8) ==> value_literal(bytes) == seq!['X', '\'']
            + hex_digits(bytes) + seq!['\''],
{
    text_is_utf8_without_a_zero(bytes);
    hexadecimal_literals_are_these_characters(bytes);
}

/// Text that is sent without one of the six escaped characters stands in its
/// statement as it is, between quotes.
pub proof fn plain_text_is_sent_as_it_is(text: Seq<char>)
    requires
        forall|i: int|
            #![trigger text[i]]
            0 <= i < text.len() ==> text[i] != '\'' && text[i] != '\\' && text[i] != '\0' && text[i]
                != '\n' && text[i] != '\r' && text[i] != '\u{1a}',
    ensures
        quoted_literal(text) == seq!['\''] + text + seq!['\''],
{
    plain_escaped(text);
}

/// Text without an escaped character is not changed.
proof fn plain_escaped(text: Seq<char>)
    requires
        forall|i: int|
            #![trigger text[i]]
            0 <= i < text.len() ==> text[i] != '\'' && text[i] != '\\' && text[i] != '\0' && text[i]
                != '\n' && text[i] != '\r' && text[i] != '\u{1a}',
    ensures
        escaped_text(text) == text,
    decreases text.len(),
{
    if text.len() > 0 {
        let rest = text.drop_first();
        assert forall|i: int| #![trigger rest[i]] 0 <= i < rest.len() implies rest[i] != '\''
            && rest[i] != '\\' && rest[i] != '\0' && rest[i] != '\n' && rest[i] != '\r' && rest[i]
            != '\u{1a}' by {
            assert(rest[i] == text[i + 1]);
        }
        plain_escaped(rest);
        assert(seq![text[0]] + rest =~= text);
    } else {
        assert(text =~= seq![]);
    }
}

/// A number is written in decimal without a leading zero: one digit where it
/// is below ten, and else what its tens are written as and the last digit.
pub proof fn numbers_are_written_in_decimal(number: nat)
    ensures
        number < 10 ==> decimal_text(number).len() == 1 && decimal_text(number)[0] as u32 == 48
            + number,
        number >= 10 ==> decimal_text(number).drop_last() == decimal_text(number / 10)
            && decimal_text(number).last() as u32 == 48 + number % 10,
{
    if number >= 10 {
        assert(decimal_text(number).drop_last() =~= decimal_text(number / 10));
    }
}

} // verus!
