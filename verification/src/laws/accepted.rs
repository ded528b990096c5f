//! That nothing but an INSERT of one column is taken apart.

use crate::insert::{
    after_mark, after_word, bare_length, ends_statement, identifier_at, in_identifier, insert_of,
    literal_at, unquoted,
};
use crate::laws::grammar::{
    after_column, after_literal, after_table, blank, flush, names, same_spelling, spelled,
    statement, Spelling,
};
use crate::scan::{after_space, before, before_found, is_word, opens_with, upper, whitespace};
use vstd::prelude::*;

verus! {

/// The white space that text opens with.
proof fn space_before(text: Seq<char>) -> (space: Seq<char>)
    ensures
        blank(space),
        text == space + after_space(text),
        flush(after_space(text)),
    decreases text.len(),
{
    if text.len() > 0 && whitespace(text[0]) {
        let rest = text.drop_first();
        let left = space_before(rest);
        let space = seq![text[0]] + left;
        assert(text =~= seq![text[0]] + rest);
        assert(seq![text[0]] + (left + after_space(rest)) =~= space + after_space(text));
        assert forall|i: int| 0 <= i < space.len() implies whitespace(#[trigger] space[i]) by {
            if i > 0 {
                assert(space[i] == left[i - 1]);
            }
        }
        space
    } else {
        assert(text =~= Seq::<char>::empty() + after_space(text));
        Seq::empty()
    }
}

/// The keyword that was taken, and the white space before it.
proof fn word_before(text: Seq<char>, word: Seq<char>, rest: Seq<char>) -> (found: (
    Seq<char>,
    Seq<char>,
))
    requires
        after_word(text, word) == Some(rest),
        forall|i: int| 0 <= i < word.len() ==> 'A' <= #[trigger] word[i] <= 'Z',
    ensures
        blank(found.0),
        spelled(found.1, word),
        text == found.0 + (found.1 + rest),
{
    let space = space_before(text);
    let left = after_space(text);
    let taken = left.take(word.len() as int);
    assert(left =~= taken + rest);
    assert(opens_with(taken, word)) by {
        assert forall|i: int| 0 <= i < word.len() implies upper(taken[i]) == word[i] by {
            assert(taken[i] == left[i]);
        }
    }
    assert(is_word(taken, word));
    same_spelling(taken, word);
    (space, taken)
}

/// The white space before a mark that was taken.
proof fn mark_before(text: Seq<char>, mark: char, rest: Seq<char>) -> (space: Seq<char>)
    requires
        after_mark(text, mark) == Some(rest),
    ensures
        blank(space),
        text == space + (seq![mark] + rest),
{
    let space = space_before(text);
    let left = after_space(text);
    assert(left =~= seq![mark] + rest);
    space
}

/// A bare identifier is of its characters.
proof fn bare_found(text: Seq<char>)
    ensures
        bare_length(text) <= text.len(),
        forall|i: int| 0 <= i < bare_length(text) ==> in_identifier(#[trigger] text[i]),
    decreases text.len(),
{
    if text.len() > 0 && in_identifier(text[0]) {
        let rest = text.drop_first();
        bare_found(rest);
        assert forall|i: int| 0 <= i < bare_length(text) implies in_identifier(
            #[trigger] text[i],
        ) by {
            if i > 0 {
                assert(rest[i - 1] == text[i]);
            }
        }
    }
}

/// The identifier that was taken as it was spelled, and the white space before
/// it.
proof fn name_before(text: Seq<char>, name: Seq<char>, rest: Seq<char>) -> (found: (
    Seq<char>,
    Seq<char>,
))
    requires
        identifier_at(text) == Some((name, rest)),
    ensures
        blank(found.0),
        names(found.1, name),
        text == found.0 + (found.1 + rest),
{
    let space = space_before(text);
    let left = after_space(text);
    if left.len() > 0 && left[0] == '`' {
        let quoted = left.skip(1);
        let end = before(quoted, '`') as int;
        before_found(quoted, '`');
        let part = seq!['`'] + name + seq!['`'];
        assert(left =~= part + rest);
        if name.contains('`') {
            let at = choose|at: int| 0 <= at < name.len() && name[at] == '`';
            assert(quoted[at] != '`');
        }
        (space, part)
    } else {
        bare_found(left);
        assert(left =~= name + rest);
        assert forall|i: int| 0 <= i < name.len() implies in_identifier(#[trigger] name[i]) by {
            assert(name[i] == left[i]);
        }
        assert(name[0] == left[0]);
        (space, name)
    }
}

/// What follows a string is the end of the text that it was read from.
proof fn string_length(text: Seq<char>, value: Seq<char>, rest: Seq<char>) -> (count: nat)
    requires
        unquoted(text) == Some((value, rest)),
    ensures
        0 < count <= text.len(),
        rest == text.skip(count as int),
    decreases text.len(),
{
    if text[0] == '\'' && !(text.len() >= 2 && text[1] == '\'') {
        1
    } else {
        let step: int = if text[0] == '\'' || text[0] == '\\' {
            2
        } else {
            1
        };
        let left = text.skip(step);
        let (inner, _) = unquoted(left)->0;
        let count = string_length(left, inner, rest);
        assert(left.skip(count as int) =~= text.skip(step + count));
        (step + count) as nat
    }
}

/// The literal that was taken as it was spelled.
proof fn literal_before(text: Seq<char>, value: Seq<u8>, rest: Seq<char>) -> (literal: Seq<char>)
    requires
        literal_at(text) == Some((value, rest)),
    ensures
        literal.len() > 0,
        text == literal + rest,
{
    if crate::hex::opens_quoted(text) {
        let end = before(text.skip(2), '\'') as int + 3;
        let literal = text.take(end);
        assert(text =~= literal + rest);
        literal
    } else {
        let (inner, _) = unquoted(text.skip(1))->0;
        let count = string_length(text.skip(1), inner, rest);
        let literal = text.take(count as int + 1);
        assert(text =~= literal + rest);
        literal
    }
}

/// Parts that are an insert of one column, as far as they are told apart by
/// reading.
pub open spec fn reads_as_insert(
    parts: Spelling,
    table: Seq<char>,
    column: Seq<char>,
    value: Seq<u8>,
) -> bool {
    &&& parts.spaces.len() == 10
    &&& forall|i: int| 0 <= i < 10 ==> blank(#[trigger] parts.spaces[i])
    &&& spelled(parts.insert, seq!['I', 'N', 'S', 'E', 'R', 'T'])
    &&& spelled(parts.into, seq!['I', 'N', 'T', 'O'])
    &&& spelled(parts.values, seq!['V', 'A', 'L', 'U', 'E', 'S'])
    &&& names(parts.table, table)
    &&& names(parts.column, column)
    &&& parts.literal.len() > 0
    &&& literal_at(parts.literal + after_literal(parts)) == Some((value, after_literal(parts)))
    &&& ends_statement(parts.end)
}

/// What is taken apart is INSERT INTO, a table, one column in brackets,
/// VALUES, one literal in brackets and the end of the statement, with nothing
/// else but white space between them; and the table, the column and the value
/// are what those parts spell.
pub proof fn only_inserts_of_one_column_are_taken_apart(
    sql: Seq<char>,
    table: Seq<char>,
    column: Seq<char>,
    value: Seq<u8>,
)
    requires
        insert_of(sql) == Some((table, column, value)),
    ensures
        exists|parts: Spelling|
            reads_as_insert(parts, table, column, value) && #[trigger] statement(parts) == sql,
{
    reveal_strlit("INSERT");
    reveal_strlit("INTO");
    reveal_strlit("VALUES");
    assert("INSERT"@ =~= seq!['I', 'N', 'S', 'E', 'R', 'T']);
    assert("INTO"@ =~= seq!['I', 'N', 'T', 'O']);
    assert("VALUES"@ =~= seq!['V', 'A', 'L', 'U', 'E', 'S']);
    let after_insert = after_word(sql, "INSERT"@)->0;
    let after_into = after_word(after_insert, "INTO"@)->0;
    let (_, tabled) = identifier_at(after_into)->0;
    let (s0, insert) = word_before(sql, "INSERT"@, after_insert);
    let (s1, into) = word_before(after_insert, "INTO"@, after_into);
    let (s2, table_part) = name_before(after_into, table, tabled);
    let opened = after_mark(tabled, '(')->0;
    let (_, named) = identifier_at(opened)->0;
    let closed = after_mark(named, ')')->0;
    let s3 = mark_before(tabled, '(', opened);
    let (s4, column_part) = name_before(opened, column, named);
    let s5 = mark_before(named, ')', closed);
    let after_values = after_word(closed, "VALUES"@)->0;
    let (s6, values) = word_before(closed, "VALUES"@, after_values);
    let open_value = after_mark(after_values, '(')->0;
    let s7 = mark_before(after_values, '(', open_value);
    let s8 = space_before(open_value);
    let literal_on = after_space(open_value);
    let (_, valued) = literal_at(literal_on)->0;
    let literal = literal_before(literal_on, value, valued);
    let end = after_mark(valued, ')')->0;
    let s9 = mark_before(valued, ')', end);
    let parts = Spelling {
        insert,
        into,
        table: table_part,
        column: column_part,
        values,
        literal,
        spaces: seq![s0, s1, s2, s3, s4, s5, s6, s7, s8, s9],
        end,
    };
    assert(after_literal(parts) == valued);
    assert(after_column(parts) == named);
    assert(after_table(parts) == tabled);
    assert(statement(parts) == sql);
    assert forall|i: int| 0 <= i < 10 implies blank(#[trigger] parts.spaces[i]) by {
        assert(parts.spaces[0] == s0 && parts.spaces[1] == s1 && parts.spaces[2] == s2
            && parts.spaces[3] == s3 && parts.spaces[4] == s4);
        assert(parts.spaces[5] == s5 && parts.spaces[6] == s6 && parts.spaces[7] == s7
            && parts.spaces[8] == s8 && parts.spaces[9] == s9);
        assert(i == 0 || i == 1 || i == 2 || i == 3 || i == 4 || i == 5 || i == 6 || i == 7 || i
            == 8 || i == 9);
    }
    assert(reads_as_insert(parts, table, column, value));
}

} // verus!
