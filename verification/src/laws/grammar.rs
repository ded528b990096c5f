//! What holds of the INSERT that is taken apart, however a client spells it.

use crate::insert::{
    after_mark, after_word, bare_length, ends_statement, identifier_at, in_identifier, insert_of,
    insert_table, literal_at,
};
use crate::scan::{
    after_space, alphanumeric, before_is, before_space, first_word, is_word, opens_with, upper,
    whitespace,
};
use vstd::prelude::*;

verus! {

/// White space is these characters and no other.
pub proof fn white_space_is_these_characters(c: char)
    ensures
        whitespace(c) <==> c == ' ' || c == '\t' || c == '\n' || c == '\u{b}' || c == '\u{c}' || c
            == '\r' || c == '\u{85}' || c == '\u{a0}' || c == '\u{1680}' || '\u{2000}' <= c
            <= '\u{200a}' || c == '\u{2028}' || c == '\u{2029}' || c == '\u{202f}' || c
            == '\u{205f}' || c == '\u{3000}',
{
}

/// Of ASCII an identifier takes the letters, the digits, the underscore and
/// the dot, and no other character; of the rest the letters and digits.
pub proof fn identifiers_take_these_characters(c: char)
    ensures
        c as u32 <= 0x7f ==> (in_identifier(c) <==> 'a' <= c <= 'z' || 'A' <= c <= 'Z' || '0' <= c
            <= '9' || c == '_' || c == '.'),
        c as u32 > 0x7f ==> (in_identifier(c) <==> alphanumeric(c)),
{
}

/// Text of nothing but white space.
pub open spec fn blank(text: Seq<char>) -> bool {
    forall|i: int| 0 <= i < text.len() ==> whitespace(#[trigger] text[i])
}

/// Text that does not open with white space.
pub open spec fn flush(text: Seq<char>) -> bool {
    text.len() == 0 || !whitespace(text[0])
}

/// Text spelled as an upper-case word of ASCII letters, each in either case.
pub open spec fn spelled(text: Seq<char>, word: Seq<char>) -> bool {
    text.len() == word.len() && forall|i: int|
        0 <= i < word.len() ==> #[trigger] text[i] == word[i] || 'A' <= word[i] <= 'Z'
            && text[i] as u32 == word[i] as u32 + 32
}

/// White space before text is passed over.
pub proof fn white_space_is_passed_over(space: Seq<char>, rest: Seq<char>)
    requires
        blank(space),
        flush(rest),
    ensures
        after_space(space + rest) == rest,
    decreases space.len(),
{
    if space.len() == 0 {
        assert(space + rest =~= rest);
    } else {
        let left = space.drop_first();
        assert forall|i: int| 0 <= i < left.len() implies whitespace(#[trigger] left[i]) by {
            assert(left[i] == space[i + 1]);
        }
        white_space_is_passed_over(left, rest);
        assert((space + rest).drop_first() =~= left + rest);
        assert((space + rest)[0] == space[0]);
    }
}

/// The first word of a statement is what stands before its first white space,
/// after the white space that it opens with; and it is compared in either
/// case.
pub proof fn first_words_end_at_white_space(
    space: Seq<char>,
    word: Seq<char>,
    rest: Seq<char>,
    upper_word: Seq<char>,
)
    requires
        blank(space),
        forall|i: int| 0 <= i < word.len() ==> !whitespace(#[trigger] word[i]),
        word.len() > 0 || rest.len() == 0,
        rest.len() == 0 || whitespace(rest[0]),
    ensures
        first_word(space + (word + rest)) == word,
        (forall|i: int| 0 <= i < upper_word.len() ==> 'A' <= #[trigger] upper_word[i] <= 'Z') ==> (
        is_word(word, upper_word) <==> spelled(word, upper_word)),
{
    if word.len() > 0 {
        assert((word + rest)[0] == word[0]);
    }
    white_space_is_passed_over(space, word + rest);
    word_counted(word, rest);
    assert((word + rest).take(word.len() as int) =~= word);
    if forall|i: int| 0 <= i < upper_word.len() ==> 'A' <= #[trigger] upper_word[i] <= 'Z' {
        same_spelling(word, upper_word);
    }
}

/// A word is counted to the white space that ends it.
proof fn word_counted(word: Seq<char>, rest: Seq<char>)
    requires
        forall|i: int| 0 <= i < word.len() ==> !whitespace(#[trigger] word[i]),
        rest.len() == 0 || whitespace(rest[0]),
    ensures
        before_space(word + rest) == word.len(),
    decreases word.len(),
{
    if word.len() == 0 {
        assert(word + rest =~= rest);
    } else {
        let left = word.drop_first();
        assert forall|i: int| 0 <= i < left.len() implies !whitespace(#[trigger] left[i]) by {
            assert(left[i] == word[i + 1]);
        }
        word_counted(left, rest);
        assert((word + rest).drop_first() =~= left + rest);
        assert((word + rest)[0] == word[0]);
    }
}

/// A character in upper case is a letter where it is that letter in either
/// case.
proof fn same_letter(c: char, letter: char)
    requires
        'A' <= letter <= 'Z',
    ensures
        upper(c) == letter <==> c == letter || c as u32 == letter as u32 + 32,
{
}

/// A word is compared letter by letter in either case.
pub(crate) proof fn same_spelling(text: Seq<char>, word: Seq<char>)
    requires
        forall|i: int| 0 <= i < word.len() ==> 'A' <= #[trigger] word[i] <= 'Z',
    ensures
        is_word(text, word) <==> spelled(text, word),
{
    if text.len() == word.len() {
        assert forall|i: int| 0 <= i < word.len() implies (upper(#[trigger] text[i]) == word[i]
            <==> text[i] == word[i] || 'A' <= word[i] <= 'Z' && text[i] as u32 == word[i] as u32
            + 32) by {
            assert('A' <= word[i] <= 'Z');
            same_letter(text[i], word[i]);
        }
    }
}

/// A keyword is taken in either case, after white space, where it is not the
/// beginning of a longer word; what follows it is left. Text that is spelled
/// otherwise has no such keyword.
pub proof fn keywords_are_words_of_their_own(
    space: Seq<char>,
    text: Seq<char>,
    word: Seq<char>,
    rest: Seq<char>,
)
    requires
        blank(space),
        word.len() > 0,
        forall|i: int| 0 <= i < word.len() ==> 'A' <= #[trigger] word[i] <= 'Z',
        text.len() == word.len(),
        flush(text),
    ensures
        spelled(text, word) && (rest.len() == 0 || !in_identifier(rest[0])) ==> after_word(
            space + (text + rest),
            word,
        ) == Some(rest),
        !spelled(text, word) || rest.len() > 0 && in_identifier(rest[0]) ==> after_word(
            space + (text + rest),
            word,
        ) is None,
{
    let all = text + rest;
    assert(all[0] == text[0]);
    white_space_is_passed_over(space, all);
    same_spelling(text, word);
    assert(all.skip(word.len() as int) =~= rest);
    assert(opens_with(all, word) <==> opens_with(text, word)) by {
        assert forall|i: int| 0 <= i < word.len() implies upper(all[i]) == upper(text[i]) by {
            assert(all[i] == text[i]);
        }
        if opens_with(all, word) {
            assert forall|i: int| 0 <= i < word.len() implies upper(text[i]) == word[i] by {
                assert(upper(all[i]) == word[i]);
            }
        }
        if opens_with(text, word) {
            assert forall|i: int| 0 <= i < word.len() implies upper(all[i]) == word[i] by {
                assert(upper(text[i]) == word[i]);
            }
        }
    }
    if rest.len() > 0 {
        assert(all[word.len() as int] == rest[0]);
    }
}

/// A mark is taken after white space, and what follows it is left; where
/// something else stands, or nothing, there is none.
pub proof fn marks_are_taken_after_white_space(
    space: Seq<char>,
    mark: char,
    other: char,
    rest: Seq<char>,
)
    requires
        blank(space),
        !whitespace(mark),
        !whitespace(other),
        other != mark,
    ensures
        after_mark(space + (seq![mark] + rest), mark) == Some(rest),
        after_mark(space + (seq![other] + rest), mark) is None,
        after_mark(space, mark) is None,
{
    white_space_is_passed_over(space, seq![mark] + rest);
    white_space_is_passed_over(space, seq![other] + rest);
    white_space_is_passed_over(space, seq![]);
    assert(space + Seq::<char>::empty() =~= space);
    assert((seq![mark] + rest).skip(1) =~= rest);
}

/// An identifier is taken after white space: bare as far as its characters
/// go, and in backticks, whatever is in them, to the first that closes it;
/// one that is never closed, or that opens otherwise, is none.
pub proof fn identifiers_are_bare_or_in_backticks(
    space: Seq<char>,
    bare: Seq<char>,
    after: Seq<char>,
    quoted: Seq<char>,
    rest: Seq<char>,
    other: char,
)
    requires
        blank(space),
        bare.len() > 0,
        forall|i: int| 0 <= i < bare.len() ==> in_identifier(#[trigger] bare[i]),
        after.len() == 0 || !in_identifier(after[0]),
        flush(bare),
        bare[0] != '`',
        !quoted.contains('`'),
        !whitespace(other) && other != '`' && !in_identifier(other),
    ensures
        identifier_at(space + (bare + after)) == Some((bare, after)),
        identifier_at(space + (seq!['`'] + (quoted + (seq!['`'] + rest)))) == Some((quoted, rest)),
        identifier_at(space + (seq!['`'] + quoted)) is None,
        identifier_at(space + (seq![other] + rest)) is None,
        identifier_at(space) is None,
{
    assert((bare + after)[0] == bare[0]);
    white_space_is_passed_over(space, bare + after);
    bare_counted(bare, after);
    assert((bare + after).take(bare.len() as int) =~= bare);
    assert((bare + after).skip(bare.len() as int) =~= after);
    let body = quoted + (seq!['`'] + rest);
    white_space_is_passed_over(space, seq!['`'] + body);
    white_space_is_passed_over(space, seq!['`'] + quoted);
    white_space_is_passed_over(space, seq![other] + rest);
    white_space_is_passed_over(space, seq![]);
    assert(space + Seq::<char>::empty() =~= space);
    assert((seq!['`'] + body).skip(1) =~= body);
    assert((seq!['`'] + quoted).skip(1) =~= quoted);
    assert forall|i: int| 0 <= i < quoted.len() implies quoted[i] != '`' by {
        assert(quoted.contains(quoted[i]));
    }
    assert forall|i: int| 0 <= i < quoted.len() implies body[i] != '`' by {
        assert(body[i] == quoted[i]);
    }
    before_is(body, '`', quoted.len());
    before_is(quoted, '`', quoted.len());
    assert(body.take(quoted.len() as int) =~= quoted);
    assert(body.skip(quoted.len() as int + 1) =~= rest);
}

/// A bare identifier is counted to the character that ends it.
proof fn bare_counted(bare: Seq<char>, after: Seq<char>)
    requires
        forall|i: int| 0 <= i < bare.len() ==> in_identifier(#[trigger] bare[i]),
        after.len() == 0 || !in_identifier(after[0]),
    ensures
        bare_length(bare + after) == bare.len(),
    decreases bare.len(),
{
    if bare.len() == 0 {
        assert(bare + after =~= after);
    } else {
        let left = bare.drop_first();
        assert forall|i: int| 0 <= i < left.len() implies in_identifier(#[trigger] left[i]) by {
            assert(left[i] == bare[i + 1]);
        }
        bare_counted(left, after);
        assert((bare + after).drop_first() =~= left + after);
        assert((bare + after)[0] == bare[0]);
    }
}

/// A statement ends in white space, with one semicolon in it or none; with
/// anything else it does not end.
pub proof fn statements_end_in_at_most_one_semicolon(
    space: Seq<char>,
    more: Seq<char>,
    other: char,
    rest: Seq<char>,
)
    requires
        blank(space),
        blank(more),
        !whitespace(other),
    ensures
        ends_statement(space),
        ends_statement(space + (seq![';'] + more)),
        other != ';' ==> !ends_statement(space + (seq![other] + rest)),
        !ends_statement(space + (seq![';'] + (more + (seq![other] + rest)))),
{
    white_space_is_passed_over(space, seq![]);
    assert(space + Seq::<char>::empty() =~= space);
    white_space_is_passed_over(space, seq![';'] + more);
    assert((seq![';'] + more).skip(1) =~= more);
    white_space_is_passed_over(more, seq![]);
    assert(more + Seq::<char>::empty() =~= more);
    white_space_is_passed_over(space, seq![other] + rest);
    let tail = more + (seq![other] + rest);
    white_space_is_passed_over(space, seq![';'] + tail);
    assert((seq![';'] + tail).skip(1) =~= tail);
    white_space_is_passed_over(more, seq![other] + rest);
}

/// A name as a statement spells it: bare, or in backticks.
pub open spec fn names(text: Seq<char>, name: Seq<char>) -> bool {
    ||| text == name && name.len() > 0 && flush(name) && name[0] != '`' && forall|i: int|
        0 <= i < name.len() ==> in_identifier(#[trigger] name[i])
    ||| text == seq!['`'] + name + seq!['`'] && !name.contains('`')
}

/// White space that no identifier goes on with.
pub open spec fn apart(space: Seq<char>) -> bool {
    space.len() == 0 || !in_identifier(space[0])
}

/// The parts of an insert as a client spells it.
pub struct Spelling {
    pub insert: Seq<char>,
    pub into: Seq<char>,
    pub table: Seq<char>,
    pub column: Seq<char>,
    pub values: Seq<char>,
    pub literal: Seq<char>,
    /// The white space before each part, in order.
    pub spaces: Seq<Seq<char>>,
    pub end: Seq<char>,
}

/// What follows the literal of an insert.
pub open spec fn after_literal(parts: Spelling) -> Seq<char> {
    parts.spaces[9] + (seq![')'] + parts.end)
}

/// What follows the column of an insert.
pub open spec fn after_column(parts: Spelling) -> Seq<char> {
    parts.spaces[5] + (seq![')'] + (parts.spaces[6] + (parts.values + (parts.spaces[7] + (seq!['(']
        + (parts.spaces[8] + (parts.literal + after_literal(parts))))))))
}

/// What follows the table of an insert.
pub open spec fn after_table(parts: Spelling) -> Seq<char> {
    parts.spaces[3] + (seq!['('] + (parts.spaces[4] + (parts.column + after_column(parts))))
}

/// An insert as a client spells it.
pub open spec fn statement(parts: Spelling) -> Seq<char> {
    parts.spaces[0] + (parts.insert + (parts.spaces[1] + (parts.into + (parts.spaces[2] + (
    parts.table + after_table(parts))))))
}

/// Parts that spell an insert: keywords in either case, white space wherever
/// it may stand and where two words would run into one, names bare or in
/// backticks, and a literal that ends where what follows it begins.
pub open spec fn spells_insert(
    parts: Spelling,
    table: Seq<char>,
    column: Seq<char>,
    value: Seq<u8>,
) -> bool {
    &&& parts.spaces.len() == 10
    &&& forall|i: int| 0 <= i < 10 ==> blank(#[trigger] parts.spaces[i]) && apart(parts.spaces[i])
    &&& spelled(parts.insert, seq!['I', 'N', 'S', 'E', 'R', 'T'])
    &&& parts.spaces[1].len() > 0
    &&& spelled(parts.into, seq!['I', 'N', 'T', 'O'])
    &&& parts.spaces[2].len() > 0 || parts.table[0] == '`'
    &&& spelled(parts.values, seq!['V', 'A', 'L', 'U', 'E', 'S'])
    &&& names(parts.table, table)
    &&& names(parts.column, column)
    &&& flush(parts.literal) && parts.literal.len() > 0
    &&& literal_at(parts.literal + after_literal(parts)) == Some((value, after_literal(parts)))
}

/// The identifiers of an insert are read as the names that they spell.
proof fn name_read(space: Seq<char>, text: Seq<char>, name: Seq<char>, rest: Seq<char>)
    requires
        blank(space),
        names(text, name),
        rest.len() == 0 || !in_identifier(rest[0]),
    ensures
        identifier_at(space + (text + rest)) == Some((name, rest)),
        text.len() > 0,
        flush(text),
{
    if text == name && name.len() > 0 && flush(name) && name[0] != '`' && forall|i: int|
        0 <= i < name.len() ==> in_identifier(#[trigger] name[i]) {
        identifiers_are_bare_or_in_backticks(space, name, rest, seq![], rest, '(');
    } else {
        assert(text + rest =~= seq!['`'] + (name + (seq!['`'] + rest)));
        identifiers_are_bare_or_in_backticks(space, seq!['a'], seq![], name, rest, '(');
    }
}

/// White space or a bracket does not go on with an identifier.
proof fn word_ends(space: Seq<char>, mark: char, rest: Seq<char>)
    requires
        apart(space),
        mark == '(' || mark == ')',
    ensures
        (space + (seq![mark] + rest)).len() > 0,
        !in_identifier((space + (seq![mark] + rest))[0]),
{
    if space.len() > 0 {
        assert((space + (seq![mark] + rest))[0] == space[0]);
    } else {
        assert((space + (seq![mark] + rest))[0] == mark);
    }
}

/// Words are of letters.
proof fn keyword_letters(text: Seq<char>, word: Seq<char>)
    requires
        spelled(text, word),
        word.len() > 0,
        'A' <= word[0] <= 'Z',
    ensures
        text.len() > 0,
        flush(text),
{
    assert(text[0] == word[0] || text[0] as u32 == word[0] as u32 + 32);
}

/// The opening of an insert is read up to its table.
#[verifier::rlimit(40)]
proof fn opening_read(parts: Spelling, table: Seq<char>, column: Seq<char>, value: Seq<u8>)
    requires
        spells_insert(parts, table, column, value),
    ensures
        insert_table(statement(parts)) == Some((table, after_table(parts))),
{
    reveal_strlit("INSERT");
    reveal_strlit("INTO");
    assert("INSERT"@ =~= seq!['I', 'N', 'S', 'E', 'R', 'T']);
    assert("INTO"@ =~= seq!['I', 'N', 'T', 'O']);
    let named = parts.table + after_table(parts);
    let after_into = parts.spaces[2] + named;
    let after_insert = parts.spaces[1] + (parts.into + after_into);
    assert(blank(parts.spaces[0]) && blank(parts.spaces[1]) && blank(parts.spaces[2]));
    assert(apart(parts.spaces[1]) && apart(parts.spaces[2]) && apart(parts.spaces[3]));
    keyword_letters(parts.insert, "INSERT"@);
    keyword_letters(parts.into, "INTO"@);
    assert(after_insert[0] == parts.spaces[1][0]);
    keywords_are_words_of_their_own(parts.spaces[0], parts.insert, "INSERT"@, after_insert);
    word_ends(parts.spaces[3], '(', parts.spaces[4] + (parts.column + after_column(parts)));
    name_read(parts.spaces[2], parts.table, table, after_table(parts));
    if parts.spaces[2].len() > 0 {
        assert(after_into[0] == parts.spaces[2][0]);
    } else {
        assert(after_into[0] == parts.table[0]);
    }
    keywords_are_words_of_their_own(parts.spaces[1], parts.into, "INTO"@, after_into);
}

/// The column of an insert is read in its brackets.
#[verifier::rlimit(40)]
proof fn column_read(parts: Spelling, table: Seq<char>, column: Seq<char>, value: Seq<u8>)
    requires
        spells_insert(parts, table, column, value),
    ensures
        crate::insert::bracketed_identifier(after_table(parts)) == Some(
            (
                column,
                parts.spaces[6] + (parts.values + (parts.spaces[7] + (seq!['('] + (parts.spaces[8]
                    + (parts.literal + after_literal(parts)))))),
            ),
        ),
{
    let after_close = parts.spaces[6] + (parts.values + (parts.spaces[7] + (seq!['('] + (
    parts.spaces[8] + (parts.literal + after_literal(parts))))));
    let after_open = parts.spaces[4] + (parts.column + after_column(parts));
    assert(blank(parts.spaces[3]) && blank(parts.spaces[4]) && blank(parts.spaces[5]));
    assert(apart(parts.spaces[5]));
    marks_are_taken_after_white_space(parts.spaces[3], '(', 'x', after_open);
    word_ends(parts.spaces[5], ')', after_close);
    name_read(parts.spaces[4], parts.column, column, after_column(parts));
    marks_are_taken_after_white_space(parts.spaces[5], ')', 'x', after_close);
}

/// The value of an insert is read in its brackets.
#[verifier::rlimit(40)]
proof fn value_read(parts: Spelling, table: Seq<char>, column: Seq<char>, value: Seq<u8>)
    requires
        spells_insert(parts, table, column, value),
    ensures
        ({
            let bracketed = parts.spaces[7] + (seq!['('] + (parts.spaces[8] + (parts.literal
                + after_literal(parts))));
            &&& after_word(parts.spaces[6] + (parts.values + bracketed), "VALUES"@) == Some(
                bracketed,
            )
            &&& crate::insert::bracketed_literal(bracketed) == Some((value, parts.end))
        }),
{
    reveal_strlit("VALUES");
    assert("VALUES"@ =~= seq!['V', 'A', 'L', 'U', 'E', 'S']);
    let literal = parts.literal + after_literal(parts);
    let bracketed = parts.spaces[7] + (seq!['('] + (parts.spaces[8] + literal));
    assert(blank(parts.spaces[6]) && blank(parts.spaces[7]) && blank(parts.spaces[8]) && blank(
        parts.spaces[9],
    ));
    assert(apart(parts.spaces[7]));
    keyword_letters(parts.values, "VALUES"@);
    word_ends(parts.spaces[7], '(', parts.spaces[8] + literal);
    keywords_are_words_of_their_own(parts.spaces[6], parts.values, "VALUES"@, bracketed);
    marks_are_taken_after_white_space(parts.spaces[7], '(', 'x', parts.spaces[8] + literal);
    assert(literal[0] == parts.literal[0]);
    white_space_is_passed_over(parts.spaces[8], literal);
    marks_are_taken_after_white_space(parts.spaces[9], ')', 'x', parts.end);
}

/// An insert is taken apart however it is spelled: keywords in either case,
/// white space wherever it may stand, names bare or in backticks, a string or
/// a hexadecimal literal; where something other than the end of a statement
/// follows, it is not taken apart.
pub proof fn inserts_are_taken_apart_however_spelled(
    parts: Spelling,
    table: Seq<char>,
    column: Seq<char>,
    value: Seq<u8>,
)
    requires
        spells_insert(parts, table, column, value),
    ensures
        ends_statement(parts.end) ==> insert_of(statement(parts)) == Some((table, column, value)),
        !ends_statement(parts.end) ==> insert_of(statement(parts)) is None,
{
    opening_read(parts, table, column, value);
    column_read(parts, table, column, value);
    value_read(parts, table, column, value);
}

/// A statement that does not open with INSERT, in either case, is not taken
/// apart.
pub proof fn other_statements_are_not_taken_apart(
    space: Seq<char>,
    text: Seq<char>,
    rest: Seq<char>,
)
    requires
        blank(space),
        text.len() == 6,
        flush(text),
        !spelled(text, seq!['I', 'N', 'S', 'E', 'R', 'T']),
    ensures
        insert_of(space + (text + rest)) is None,
        insert_of(space) is None,
{
    reveal_strlit("INSERT");
    assert("INSERT"@ =~= seq!['I', 'N', 'S', 'E', 'R', 'T']);
    keywords_are_words_of_their_own(space, text, "INSERT"@, rest);
    white_space_is_passed_over(space, seq![]);
    assert(space + Seq::<char>::empty() =~= space);
}

/// An insert of more than one column, or with anything but a closing bracket
/// after its column, is not taken apart.
pub proof fn inserts_of_more_columns_are_not_taken_apart(
    opening: Seq<char>,
    table: Seq<char>,
    spaces: Seq<Seq<char>>,
    column: Seq<char>,
    name: Seq<char>,
    other: char,
    rest: Seq<char>,
)
    requires
        spaces.len() == 3,
        forall|i: int| 0 <= i < 3 ==> blank(#[trigger] spaces[i]) && apart(spaces[i]),
        names(column, name),
        !whitespace(other) && other != ')' && !in_identifier(other),
        insert_table(
            opening + (spaces[0] + (seq!['('] + (spaces[1] + (column + (spaces[2] + (seq![other]
                + rest)))))),
        ) == Some(
            (
                table,
                spaces[0] + (seq!['('] + (spaces[1] + (column + (spaces[2] + (seq![other]
                    + rest))))),
            ),
        ),
    ensures
        insert_of(
            opening + (spaces[0] + (seq!['('] + (spaces[1] + (column + (spaces[2] + (seq![other]
                + rest)))))),
        ) is None,
{
    let after_name = spaces[2] + (seq![other] + rest);
    let after_open = spaces[1] + (column + after_name);
    assert(blank(spaces[0]) && blank(spaces[1]) && blank(spaces[2]) && apart(spaces[2]));
    marks_are_taken_after_white_space(spaces[0], '(', 'x', after_open);
    if spaces[2].len() > 0 {
        assert(after_name[0] == spaces[2][0]);
    } else {
        assert(after_name[0] == other);
    }
    name_read(spaces[1], column, name, after_name);
    marks_are_taken_after_white_space(spaces[2], ')', other, rest);
}

} // verus!
