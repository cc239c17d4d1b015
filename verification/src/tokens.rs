//! Splitting a line into the words that white space separates.

use vstd::prelude::*;
use crate::text::string_of;

verus! {

/// The characters that separate words: those with the Unicode property
/// `White_Space`.
pub open spec fn is_whitespace(c: char) -> bool {
    let u = c as u32;
    ||| 0x09 <= u <= 0x0D
    ||| u == 0x20
    ||| u == 0x85
    ||| u == 0xA0
    ||| u == 0x1680
    ||| 0x2000 <= u <= 0x200A
    ||| u == 0x2028
    ||| u == 0x2029
    ||| u == 0x202F
    ||| u == 0x205F
    ||| u == 0x3000
}

/// How many white-space characters `text` begins with.
pub open spec fn leading_blanks(text: Seq<char>) -> int
    decreases text.len(),
{
    if text.len() > 0 && is_whitespace(text[0]) {
        1 + leading_blanks(text.drop_first())
    } else {
        0
    }
}

/// How many characters other than white space `text` begins with.
pub open spec fn leading_word(text: Seq<char>) -> int
    decreases text.len(),
{
    if text.len() > 0 && !is_whitespace(text[0]) {
        1 + leading_word(text.drop_first())
    } else {
        0
    }
}

/// The words of `text`: its maximal runs of characters other than white
/// space, from left to right.
pub open spec fn tokens_of(text: Seq<char>) -> Seq<Seq<char>>
    decreases text.len(),
{
    let blanks = leading_blanks(text);
    if 0 <= blanks <= text.len() {
        let rest = text.skip(blanks);
        let word = leading_word(rest);
        if 0 < word <= rest.len() {
            seq![rest.take(word)] + tokens_of(rest.skip(word))
        } else {
            Seq::empty()
        }
    } else {
        Seq::empty()
    }
}

/// The leading white space of `text` lies within it, is white space
/// throughout, and ends at the end of `text` or before another character.
pub proof fn lemma_leading_blanks(text: Seq<char>)
    ensures
        0 <= leading_blanks(text) <= text.len(),
        forall|j: int| 0 <= j < leading_blanks(text) ==> is_whitespace(#[trigger] text[j]),
        leading_blanks(text) < text.len() ==> !is_whitespace(text[leading_blanks(text)]),
    decreases text.len(),
{
    if text.len() > 0 && is_whitespace(text[0]) {
        let rest = text.drop_first();
        lemma_leading_blanks(rest);
        assert forall|j: int| 0 <= j < leading_blanks(text) implies is_whitespace(
            #[trigger] text[j],
        ) by {
            if j > 0 {
                assert(text[j] == rest[j - 1]);
            }
        }
    }
}

/// The leading word of `text` lies within it, holds no white space, and ends
/// at the end of `text` or before white space.
pub proof fn lemma_leading_word(text: Seq<char>)
    ensures
        0 <= leading_word(text) <= text.len(),
        forall|j: int| 0 <= j < leading_word(text) ==> !is_whitespace(#[trigger] text[j]),
        leading_word(text) < text.len() ==> is_whitespace(text[leading_word(text)]),
    decreases text.len(),
{
    if text.len() > 0 && !is_whitespace(text[0]) {
        let rest = text.drop_first();
        lemma_leading_word(rest);
        assert forall|j: int| 0 <= j < leading_word(text) implies !is_whitespace(
            #[trigger] text[j],
        ) by {
            if j > 0 {
                assert(text[j] == rest[j - 1]);
            }
        }
    }
}

/// No word of a text is empty, and none holds white space.
pub proof fn lemma_tokens_are_words(text: Seq<char>)
    ensures
        forall|k: int, j: int|
            0 <= k < tokens_of(text).len() && 0 <= j < tokens_of(text)[k].len()
                ==> !is_whitespace(#[trigger] tokens_of(text)[k][j]),
        forall|k: int| 0 <= k < tokens_of(text).len() ==> (#[trigger] tokens_of(text)[k]).len() > 0,
    decreases text.len(),
{
    lemma_leading_blanks(text);
    let rest = text.skip(leading_blanks(text));
    lemma_leading_word(rest);
    let word = leading_word(rest);
    if word > 0 {
        lemma_tokens_are_words(rest.skip(word));
        let tail = tokens_of(rest.skip(word));
        assert forall|k: int| 0 <= k < tokens_of(text).len() implies (#[trigger] tokens_of(
            text,
        )[k]).len() > 0 by {
            if k > 0 {
                assert(tokens_of(text)[k] == tail[k - 1]);
            }
        }
        assert forall|k: int, j: int|
            0 <= k < tokens_of(text).len() && 0 <= j < tokens_of(text)[k].len()
                implies !is_whitespace(#[trigger] tokens_of(text)[k][j]) by {
            if k > 0 {
                assert(tokens_of(text)[k] == tail[k - 1]);
            } else {
                assert(tokens_of(text)[0][j] == rest[j]);
            }
        }
    }
}

/// Whether `c` is white space.
pub fn is_space(c: char) -> (space: bool)
    ensures
        space == is_whitespace(c),
{
    let u: u32 = c as u32;
    (0x09 <= u && u <= 0x0D) || u == 0x20 || u == 0x85 || u == 0xA0 || u == 0x1680 || (0x2000 <= u
        && u <= 0x200A) || u == 0x2028 || u == 0x2029 || u == 0x202F || u == 0x205F || u == 0x3000
}

/// The first index at or after `from` that holds no white space, or the
/// length of `text`.
pub fn skip_blanks(text: &[char], from: usize) -> (to: usize)
    requires
        from <= text@.len(),
    ensures
        to == from + leading_blanks(text@.skip(from as int)),
        from <= to <= text@.len(),
{
    let mut to: usize = from;
    while to < text.len() && is_space(text[to])
        invariant
            from <= to <= text@.len(),
            leading_blanks(text@.skip(from as int)) == (to - from) + leading_blanks(
                text@.skip(to as int),
            ),
        decreases text.len() - to,
    {
        assert(text@.skip(to as int).drop_first() =~= text@.skip(to + 1));
        to += 1;
    }
    proof {
        lemma_leading_blanks(text@.skip(to as int));
    }
    to
}

/// The first index at or after `from` that holds white space, or the length
/// of `text`.
pub fn skip_word(text: &[char], from: usize) -> (to: usize)
    requires
        from <= text@.len(),
    ensures
        to == from + leading_word(text@.skip(from as int)),
        from <= to <= text@.len(),
{
    let mut to: usize = from;
    while to < text.len() && !is_space(text[to])
        invariant
            from <= to <= text@.len(),
            leading_word(text@.skip(from as int)) == (to - from) + leading_word(
                text@.skip(to as int),
            ),
        decreases text.len() - to,
    {
        assert(text@.skip(to as int).drop_first() =~= text@.skip(to + 1));
        to += 1;
    }
    proof {
        lemma_leading_word(text@.skip(to as int));
    }
    to
}

/// Splits `text` into its words.
pub fn split_whitespace(text: &[char]) -> (tokens: Vec<String>)
    ensures
        tokens.deep_view() == tokens_of(text@),
{
    let mut tokens: Vec<String> = Vec::new();
    let mut at: usize = 0;
    assert(text@.skip(0) =~= text@);
    assert(tokens.deep_view() =~= Seq::<Seq<char>>::empty());
    loop
        invariant
            at <= text@.len(),
            tokens.deep_view() + tokens_of(text@.skip(at as int)) == tokens_of(text@),
        decreases text@.len() - at,
    {
        let start = skip_blanks(text, at);
        let end = skip_word(text, start);
        let ghost from_at = text@.skip(at as int);
        assert(from_at.skip(start - at) =~= text@.skip(start as int));
        if end == start {
            return tokens;
        }
        let token = string_of(text, start, end);
        proof {
            let rest = text@.skip(start as int);
            assert(rest.take(end - start) =~= token@);
            assert(rest.skip(end - start) =~= text@.skip(end as int));
            assert(tokens.deep_view().push(token@) + tokens_of(text@.skip(end as int))
                =~= tokens.deep_view() + tokens_of(from_at));
        }
        let ghost before = tokens.deep_view();
        tokens.push(token);
        assert(tokens.deep_view() =~= before.push(token@));
        at = end;
    }
}

} // verus!
