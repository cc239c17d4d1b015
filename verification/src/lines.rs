//! Splitting a text into its lines.

use vstd::prelude::*;
use crate::text::{first_index_of, lemma_first_index_of, lemma_first_index_of_is, string_of, to_chars};

verus! {

/// `line` without one trailing carriage return, if it has one.
pub open spec fn strip_carriage_return(line: Seq<char>) -> Seq<char> {
    if line.len() > 0 && line.last() == '\r' {
        line.drop_last()
    } else {
        line
    }
}

/// The lines of `text`. A line ends at a line feed; the line feed, and a
/// carriage return directly before it, belong to no line. What follows the
/// last line feed is a line of its own unless it is empty, and is then kept
/// as it stands.
pub open spec fn lines_of(text: Seq<char>) -> Seq<Seq<char>>
    decreases text.len(),
{
    if text.len() == 0 {
        Seq::empty()
    } else {
        let end = first_index_of(text, '\n');
        if 0 <= end < text.len() {
            seq![strip_carriage_return(text.take(end))] + lines_of(text.skip(end + 1))
        } else {
            seq![text]
        }
    }
}

/// A text without a line feed is no line if it is empty and one line otherwise.
pub proof fn lemma_lines_of_unbroken(text: Seq<char>)
    requires
        forall|j: int| 0 <= j < text.len() ==> text[j] != '\n',
    ensures
        lines_of(text) == if text.len() == 0 { Seq::<Seq<char>>::empty() } else { seq![text] },
{
    lemma_first_index_of_is(text, '\n', text.len() as int);
}

/// Where the first line feed of `text` stands at `end`, the first line is
/// what precedes it, and the other lines are those of what follows it.
pub proof fn lemma_lines_of_broken(text: Seq<char>, end: int)
    requires
        0 <= end < text.len(),
        text[end] == '\n',
        forall|j: int| 0 <= j < end ==> text[j] != '\n',
    ensures
        lines_of(text) == seq![strip_carriage_return(text.take(end))] + lines_of(
            text.skip(end + 1),
        ),
{
    lemma_first_index_of_is(text, '\n', end);
}

/// No line holds a line feed.
pub proof fn lemma_lines_hold_no_line_feed(text: Seq<char>)
    ensures
        forall|k: int, j: int|
            0 <= k < lines_of(text).len() && 0 <= j < lines_of(text)[k].len() ==> lines_of(
                text,
            )[k][j] != '\n',
    decreases text.len(),
{
    if text.len() > 0 {
        lemma_first_index_of(text, '\n');
        let end = first_index_of(text, '\n');
        if end < text.len() {
            let rest = lines_of(text.skip(end + 1));
            lemma_lines_hold_no_line_feed(text.skip(end + 1));
            assert forall|k: int, j: int|
                0 <= k < lines_of(text).len() && 0 <= j < lines_of(text)[k].len() implies lines_of(
                text,
            )[k][j] != '\n' by {
                if k > 0 {
                    assert(lines_of(text)[k] == rest[k - 1]);
                } else {
                    assert(lines_of(text)[0][j] == text[j]);
                }
            }
        }
    }
}

/// Splits `text` into its lines.
pub fn split_lines(text: &str) -> (lines: Vec<String>)
    ensures
        lines.deep_view() == lines_of(text@),
{
    let chars = to_chars(text);
    let mut lines: Vec<String> = Vec::new();
    let mut start: usize = 0;
    let mut at: usize = 0;
    assert(chars@.skip(0) =~= chars@);
    assert(lines.deep_view() =~= Seq::<Seq<char>>::empty());
    while at < chars.len()
        invariant
            start <= at <= chars@.len(),
            forall|j: int| start <= j < at ==> chars@[j] != '\n',
            lines.deep_view() + lines_of(chars@.skip(start as int)) == lines_of(chars@),
        decreases chars.len() - at,
    {
        if chars[at] == '\n' {
            let end: usize = if at > start && chars[at - 1] == '\r' {
                at - 1
            } else {
                at
            };
            let line = string_of(chars.as_slice(), start, end);
            proof {
                let rest = chars@.skip(start as int);
                lemma_lines_of_broken(rest, at - start);
                assert(rest.skip(at - start + 1) =~= chars@.skip(at + 1));
                assert(rest.take(at - start) =~= chars@.subrange(start as int, at as int));
                assert(strip_carriage_return(rest.take(at - start)) =~= line@);
                assert(lines.deep_view().push(line@) + lines_of(chars@.skip(at + 1))
                    =~= lines.deep_view() + lines_of(rest));
            }
            let ghost before = lines.deep_view();
            lines.push(line);
            assert(lines.deep_view() =~= before.push(line@));
            start = at + 1;
        }
        at += 1;
    }
    proof {
        lemma_lines_of_unbroken(chars@.skip(start as int));
    }
    if start < chars.len() {
        let line = string_of(chars.as_slice(), start, chars.len());
        assert(line@ =~= chars@.skip(start as int));
        let ghost before = lines.deep_view();
        lines.push(line);
        assert(lines.deep_view() =~= before.push(line@));
    }
    lines
}

} // verus!
