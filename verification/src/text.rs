//! Character sequences: searching, cutting, and the conversions between
//! `str`, `String` and character vectors that the rest of the crate builds on.

use vstd::prelude::*;
use vstd::utf8::*;
use vstd::string::StringSliceAdditionalSpecFns;

verus! {

/// `pattern` stands in `text` at offset `at`.
pub open spec fn occurs_at(text: Seq<char>, pattern: Seq<char>, at: int) -> bool {
    &&& 0 <= at
    &&& at + pattern.len() <= text.len()
    &&& text.subrange(at, at + pattern.len()) == pattern
}

/// `pattern` occurs somewhere in `text` as a contiguous run of characters.
pub open spec fn has_substring(text: Seq<char>, pattern: Seq<char>) -> bool {
    exists|at: int| occurs_at(text, pattern, at)
}

/// `text` ends with `suffix`.
pub open spec fn has_suffix(text: Seq<char>, suffix: Seq<char>) -> bool {
    suffix.len() <= text.len() && occurs_at(text, suffix, text.len() - suffix.len())
}

/// The index of the first occurrence of `c` in `text`, or the length of
/// `text` where `c` does not occur.
pub open spec fn first_index_of(text: Seq<char>, c: char) -> int
    decreases text.len(),
{
    if text.len() == 0 {
        0
    } else if text[0] == c {
        0
    } else {
        1 + first_index_of(text.drop_first(), c)
    }
}

/// The part of `text` before the first `c`; all of `text` where `c` does not occur.
pub open spec fn before_first(text: Seq<char>, c: char) -> Seq<char> {
    text.take(first_index_of(text, c))
}

/// The part of `text` that starts at the first `c`, that character included;
/// `None` where `c` does not occur.
pub open spec fn from_first(text: Seq<char>, c: char) -> Option<Seq<char>> {
    if first_index_of(text, c) < text.len() {
        Some(text.skip(first_index_of(text, c)))
    } else {
        None
    }
}

/// `first_index_of` lies within the text, nothing before it is `c`, and
/// where it is a position of the text, `c` stands there.
pub proof fn lemma_first_index_of(text: Seq<char>, c: char)
    ensures
        0 <= first_index_of(text, c) <= text.len(),
        forall|j: int| 0 <= j < first_index_of(text, c) ==> text[j] != c,
        first_index_of(text, c) < text.len() ==> text[first_index_of(text, c)] == c,
    decreases text.len(),
{
    if text.len() != 0 && text[0] != c {
        let rest = text.drop_first();
        lemma_first_index_of(rest, c);
        assert forall|j: int| 0 <= j < first_index_of(text, c) implies text[j] != c by {
            if j > 0 {
                assert(text[j] == rest[j - 1]);
            }
        }
    }
}

/// An index with no `c` before it, and with `c` at it unless it is the
/// length of the text, is `first_index_of`.
pub proof fn lemma_first_index_of_is(text: Seq<char>, c: char, k: int)
    requires
        0 <= k <= text.len(),
        forall|j: int| 0 <= j < k ==> text[j] != c,
        k < text.len() ==> text[k] == c,
    ensures
        first_index_of(text, c) == k,
    decreases text.len(),
{
    if text.len() != 0 && k != 0 {
        let rest = text.drop_first();
        assert forall|j: int| 0 <= j < k - 1 implies rest[j] != c by {
            assert(rest[j] == text[j + 1]);
        }
        lemma_first_index_of_is(rest, c, k - 1);
    }
}

/// What `str::to_lowercase` returns for a text with these characters.
pub uninterp spec fn lowercase_of(text: Seq<char>) -> Seq<char>;

/// Calls `str::to_lowercase`. The contract names the result: the lowercase
/// form that the standard library gives depends on the characters of `s`
/// alone, and nothing more is claimed of it.
#[verifier::external_body]
pub(crate) fn to_lowercase(s: &str) -> (lower: String)
    ensures
        lower@ == lowercase_of(s@),
{
    s.to_lowercase()
}

/// Calls `String::push`, which appends one character to the end of the string.
#[verifier::external_body]
pub(crate) fn push_char(s: &mut String, c: char)
    ensures
        final(s)@ == old(s)@.push(c),
{
    s.push(c)
}

/// Calls `core::str::from_utf8`, which succeeds exactly on valid UTF-8 and
/// then gives the text that these bytes encode.
#[verifier::external_body]
pub(crate) fn str_from_utf8(bytes: &[u8]) -> (text: Option<&str>)
    ensures
        text is Some <==> valid_utf8(bytes@),
        text matches Some(s) ==> s.spec_bytes() == bytes@,
{
    core::str::from_utf8(bytes).ok()
}

/// Decodes `bytes` as UTF-8 text; `None` where they are not valid UTF-8.
pub fn decode_text(bytes: &[u8]) -> (text: Option<&str>)
    ensures
        text is Some <==> valid_utf8(bytes@),
        text matches Some(s) ==> s@ == decode_utf8(bytes@),
{
    let text = str_from_utf8(bytes);
    proof {
        if let Some(s) = text {
            encode_utf8_decode_utf8(s@);
        }
    }
    text
}

/// Collects the characters of `s`, in order.
pub fn to_chars(s: &str) -> (chars: Vec<char>)
    ensures
        chars@ == s@,
{
    let mut chars: Vec<char> = Vec::new();
    for c in it: s.chars()
        invariant
            chars@ == it.seq().take(it.index()),
            it.seq() == s@,
    {
        chars.push(c);
    }
    chars
}

/// Builds a string of the characters `chars[from..to]`.
pub fn string_of(chars: &[char], from: usize, to: usize) -> (s: String)
    requires
        from <= to <= chars@.len(),
    ensures
        s@ == chars@.subrange(from as int, to as int),
{
    let mut s = String::new();
    let mut i: usize = from;
    while i < to
        invariant
            from <= i <= to <= chars@.len(),
            s@ == chars@.subrange(from as int, i as int),
        decreases to - i,
    {
        push_char(&mut s, chars[i]);
        i += 1;
    }
    s
}

/// Whether `pattern` stands in `text` at offset `at`.
pub fn matches_at(text: &[char], pattern: &[char], at: usize) -> (found: bool)
    ensures
        found == occurs_at(text@, pattern@, at as int),
{
    if at > text.len() || pattern.len() > text.len() - at {
        return false;
    }
    let mut k: usize = 0;
    while k < pattern.len()
        invariant
            at + pattern@.len() <= text@.len() <= usize::MAX,
            k <= pattern@.len(),
            forall|j: int| 0 <= j < k ==> text@[at + j] == pattern@[j],
        decreases pattern.len() - k,
    {
        if text[at + k] != pattern[k] {
            assert(text@.subrange(at as int, at + pattern@.len())[k as int] != pattern@[k as int]);
            return false;
        }
        k += 1;
    }
    assert(text@.subrange(at as int, at + pattern@.len()) =~= pattern@);
    true
}

/// Whether `pattern` occurs in `text`.
pub fn contains(text: &[char], pattern: &[char]) -> (found: bool)
    ensures
        found == has_substring(text@, pattern@),
{
    if pattern.len() > text.len() {
        return false;
    }
    let last: usize = text.len() - pattern.len();
    let mut at: usize = 0;
    loop
        invariant
            at <= last,
            last == text@.len() - pattern@.len(),
            forall|j: int| 0 <= j < at ==> !occurs_at(text@, pattern@, j),
        decreases last - at,
    {
        if matches_at(text, pattern, at) {
            return true;
        }
        if at == last {
            return false;
        }
        at += 1;
    }
}

/// Whether `text` ends with `suffix`.
pub fn ends_with(text: &[char], suffix: &[char]) -> (found: bool)
    ensures
        found == has_suffix(text@, suffix@),
{
    if suffix.len() > text.len() {
        return false;
    }
    matches_at(text, suffix, text.len() - suffix.len())
}

/// The index of the first `c` in `text`, or the length of `text` where there is none.
pub fn find_char(text: &[char], c: char) -> (at: usize)
    ensures
        at == first_index_of(text@, c),
        at <= text@.len(),
{
    let mut at: usize = 0;
    while at < text.len() && text[at] != c
        invariant
            at <= text@.len(),
            forall|j: int| 0 <= j < at ==> text@[j] != c,
        decreases text.len() - at,
    {
        at += 1;
    }
    proof {
        lemma_first_index_of_is(text@, c, at as int);
    }
    at
}

} // verus!
