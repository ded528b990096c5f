//! Taking text apart from the front: the space before a word, the word, the
//! character that ends it.

use vstd::prelude::*;
use vstd::slice::slice_subrange;

verus! {

/// What `char::is_alphanumeric` says of a character outside ASCII.
pub uninterp spec fn alphanumeric_beyond_ascii(c: char) -> bool;

/// A letter or a digit: of ASCII the ones listed, of the rest of Unicode
/// what the standard library's tables say.
pub open spec fn alphanumeric(c: char) -> bool {
    if c as u32 <= 0x7f {
        '0' <= c <= '9' || 'a' <= c <= 'z' || 'A' <= c <= 'Z'
    } else {
        alphanumeric_beyond_ascii(c)
    }
}

/// `char::is_alphanumeric`: of ASCII the letters and the digits. Which
/// characters of the rest of Unicode it takes is left unsaid: the contract
/// says only that it depends on the character alone.
pub assume_specification[ char::is_alphanumeric ](c: char) -> (letter: bool)
    ensures
        c as u32 <= 0x7f ==> letter == ('0' <= c <= '9' || 'a' <= c <= 'z' || 'A' <= c <= 'Z'),
        c as u32 > 0x7f ==> letter == alphanumeric_beyond_ascii(c),
;

/// A character that Unicode calls white space.
pub open spec fn whitespace(c: char) -> bool {
    let code = c as u32;
    ||| 0x09 <= code <= 0x0d
    ||| code == 0x20
    ||| code == 0x85
    ||| code == 0xa0
    ||| code == 0x1680
    ||| 0x2000 <= code <= 0x200a
    ||| code == 0x2028
    ||| code == 0x2029
    ||| code == 0x202f
    ||| code == 0x205f
    ||| code == 0x3000
}

/// True for a character that Unicode calls white space.
pub(crate) fn is_whitespace(c: char) -> (white: bool)
    ensures
        white == whitespace(c),
{
    let code: u32 = c as u32;
    (0x09 <= code && code <= 0x0d) || code == 0x20 || code == 0x85 || code == 0xa0 || code == 0x1680
        || (0x2000 <= code && code <= 0x200a) || code == 0x2028 || code == 0x2029 || code == 0x202f
        || code == 0x205f || code == 0x3000
}

/// A character in upper case, where it is an ASCII letter.
pub open spec fn upper(c: char) -> char {
    if 'a' <= c <= 'z' {
        (c as u32 - 32) as char
    } else {
        c
    }
}

/// A character in upper case, where it is an ASCII letter.
pub(crate) fn to_upper(c: char) -> (raised: char)
    ensures
        raised == upper(c),
{
    if 'a' <= c && c <= 'z' {
        (c as u8 - 32) as char
    } else {
        c
    }
}

/// Text without the white space that it opens with.
pub open spec fn after_space(text: Seq<char>) -> Seq<char>
    decreases text.len(),
{
    if text.len() > 0 && whitespace(text[0]) {
        after_space(text.drop_first())
    } else {
        text
    }
}

/// How many characters come before the first white space.
pub open spec fn before_space(text: Seq<char>) -> nat
    decreases text.len(),
{
    if text.len() > 0 && !whitespace(text[0]) {
        1 + before_space(text.drop_first())
    } else {
        0
    }
}

/// How many characters come before the first `c`: all of them where there is
/// none.
pub open spec fn before(text: Seq<char>, c: char) -> nat
    decreases text.len(),
{
    if text.len() > 0 && text[0] != c {
        1 + before(text.drop_first(), c)
    } else {
        0
    }
}

/// The first word of text: what comes before its first white space, after the
/// white space that it opens with.
pub open spec fn first_word(text: Seq<char>) -> Seq<char> {
    after_space(text).take(before_space(after_space(text)) as int)
}

/// Text that opens with `word`, an upper-case word, in either case.
pub open spec fn opens_with(text: Seq<char>, word: Seq<char>) -> bool {
    text.len() >= word.len() && forall|i: int| 0 <= i < word.len() ==> upper(text[i]) == word[i]
}

/// Text that is `word`, an upper-case word, in either case.
pub open spec fn is_word(text: Seq<char>, word: Seq<char>) -> bool {
    text.len() == word.len() && opens_with(text, word)
}

/// The first `c` stands where it is counted to, with none before it.
pub(crate) proof fn before_is(text: Seq<char>, c: char, count: nat)
    requires
        count <= text.len(),
        count < text.len() ==> text[count as int] == c,
        forall|i: int| 0 <= i < count ==> text[i] != c,
    ensures
        before(text, c) == count,
    decreases count,
{
    if count > 0 {
        let rest = text.drop_first();
        assert forall|i: int| 0 <= i < count - 1 implies rest[i] != c by {
            assert(rest[i] == text[i + 1]);
        }
        before_is(rest, c, (count - 1) as nat);
    }
}

/// `text` without the white space that it opens with.
pub(crate) fn trim_start<'a>(text: &'a [char]) -> (rest: &'a [char])
    ensures
        rest@ == after_space(text@),
{
    let mut at: usize = 0;
    assert(text@.skip(0) =~= text@);
    while at < text.len() && is_whitespace(text[at])
        invariant
            at <= text@.len(),
            after_space(text@) == after_space(text@.skip(at as int)),
        decreases text@.len() - at,
    {
        assert(text@.skip(at as int).drop_first() =~= text@.skip(at + 1));
        at += 1;
    }
    let rest = slice_subrange(text, at, text.len());
    assert(rest@ =~= text@.skip(at as int));
    rest
}

/// How many characters come before the first white space.
pub(crate) fn find_space(text: &[char]) -> (count: usize)
    ensures
        count == before_space(text@),
        count <= text@.len(),
{
    let mut at: usize = 0;
    assert(text@.skip(0) =~= text@);
    while at < text.len() && !is_whitespace(text[at])
        invariant
            at <= text@.len(),
            before_space(text@) == at + before_space(text@.skip(at as int)),
        decreases text@.len() - at,
    {
        assert(text@.skip(at as int).drop_first() =~= text@.skip(at + 1));
        at += 1;
    }
    at
}

/// How many characters come before the first `c`.
pub(crate) fn find(text: &[char], c: char) -> (count: usize)
    ensures
        count == before(text@, c),
        count <= text@.len(),
        count < text@.len() ==> text@[count as int] == c,
{
    let mut at: usize = 0;
    while at < text.len() && text[at] != c
        invariant
            at <= text@.len(),
            forall|i: int| 0 <= i < at ==> text@[i] != c,
        decreases text@.len() - at,
    {
        at += 1;
    }
    proof {
        before_is(text@, c, at as nat);
    }
    at
}

/// True where `text` opens with `word`, an upper-case word, in either case.
pub(crate) fn starts_with(text: &[char], word: &[char]) -> (opens: bool)
    ensures
        opens == opens_with(text@, word@),
{
    if text.len() < word.len() {
        return false;
    }
    let mut at: usize = 0;
    while at < word.len()
        invariant
            at <= word@.len() <= text@.len(),
            forall|i: int| 0 <= i < at ==> upper(text@[i]) == word@[i],
        decreases word@.len() - at,
    {
        if to_upper(text[at]) != word[at] {
            return false;
        }
        at += 1;
    }
    true
}

/// Text that is counted through has no `c`.
pub(crate) proof fn none_before(text: Seq<char>, c: char)
    requires
        before(text, c) >= text.len(),
    ensures
        !text.contains(c),
    decreases text.len(),
{
    if text.len() > 0 {
        let rest = text.drop_first();
        none_before(rest, c);
        assert forall|i: int| 0 <= i < text.len() implies text[i] != c by {
            if i > 0 {
                assert(rest[i - 1] == text[i]);
                assert(rest.contains(rest[i - 1]));
            }
        }
    }
}


/// What is counted to the first `c` has none.
pub(crate) proof fn before_found(text: Seq<char>, c: char)
    ensures
        before(text, c) <= text.len(),
        before(text, c) < text.len() ==> text[before(text, c) as int] == c,
        forall|i: int| 0 <= i < before(text, c) ==> text[i] != c,
    decreases text.len(),
{
    if text.len() > 0 && text[0] != c {
        let rest = text.drop_first();
        before_found(rest, c);
        assert forall|i: int| 0 <= i < before(text, c) implies text[i] != c by {
            if i > 0 {
                assert(rest[i - 1] != c);
            }
        }
    }
}


} // verus!
