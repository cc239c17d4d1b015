//! What holds of every scan: how its result follows from the lines that it
//! classifies.

use vstd::prelude::*;
use crate::scan::{classified, crash_line, exit_line, hardware_exception_text, ignored_exception_text, lemma_scan_done_stays, marker_at, scan_prefix, scan_start, unmarked, Marker, ScanMode};
use crate::tally::{count_of, lemma_tally_add_counts};
use crate::text::{from_first, has_substring};

verus! {

/// After `n` lines the crash counts as found exactly if one of these lines
/// was taken for the crash line and carried a message; a crash message is
/// then held, and otherwise none. The head of the stack trace is set exactly
/// if the scan is over, and then the crash was found.
pub proof fn lemma_found_exception(lines: Seq<Seq<char>>, n: nat)
    ensures
        scan_prefix(lines, n).0.found_exception_line <==> exists|i: nat|
            i < n && #[trigger] crash_line(lines, i),
        scan_prefix(lines, n).0.found_exception_line <==> scan_prefix(
            lines,
            n,
        ).0.crash_message is Some,
        scan_prefix(lines, n).0.stack_trace_start is Some <==> scan_prefix(lines, n).1
            == ScanMode::Done,
        scan_prefix(lines, n).0.stack_trace_start is Some ==> scan_prefix(
            lines,
            n,
        ).0.found_exception_line,
    decreases n,
{
    if n > 0 {
        let m = (n - 1) as nat;
        lemma_found_exception(lines, m);
        if scan_prefix(lines, m).0.found_exception_line {
            let i = choose|i: nat| i < m && #[trigger] crash_line(lines, i);
            assert(i < n && crash_line(lines, i));
        } else if scan_prefix(lines, n).0.found_exception_line {
            assert(crash_line(lines, m));
        } else {
            assert forall|i: nat| i < n implies !#[trigger] crash_line(lines, i) by {
                if i < m {
                } else {
                    assert(i == m);
                }
            }
        }
    }
}

/// After `n` lines the game's exit counts as seen exactly if one of these
/// lines was taken for the line of the exit.
pub proof fn lemma_game_exit(lines: Seq<Seq<char>>, n: nat)
    ensures
        scan_prefix(lines, n).0.game_exit <==> exists|i: nat|
            i < n && #[trigger] exit_line(lines, i),
    decreases n,
{
    if n > 0 {
        let m = (n - 1) as nat;
        lemma_game_exit(lines, m);
        if scan_prefix(lines, m).0.game_exit {
            let i = choose|i: nat| i < m && #[trigger] exit_line(lines, i);
            assert(i < n && exit_line(lines, i));
        } else if scan_prefix(lines, n).0.game_exit {
            assert(exit_line(lines, m));
        } else {
            assert forall|i: nat| i < n implies !#[trigger] exit_line(lines, i) by {
                if i < m {
                } else {
                    assert(i == m);
                }
            }
        }
    }
}

/// Lines without any marker text leave the scan where it started.
pub proof fn lemma_unmarked_lines(lines: Seq<Seq<char>>, n: nat)
    requires
        n <= lines.len(),
        forall|i: int| 0 <= i < n ==> unmarked(#[trigger] lines[i]),
    ensures
        scan_prefix(lines, n) == (scan_start(), ScanMode::Scanning),
    decreases n,
{
    if n > 0 {
        lemma_unmarked_lines(lines, (n - 1) as nat);
        assert(unmarked(lines[n - 1]));
    }
}

/// Where no line holds the text of the crash, the crash is never found, the
/// scan never ends early, and a line is passed over only if the line before
/// it holds the text of an ignored exception.
pub proof fn lemma_without_crash_text(lines: Seq<Seq<char>>, n: nat)
    requires
        n <= lines.len(),
        forall|i: int| 0 <= i < n ==> !has_substring(#[trigger] lines[i], hardware_exception_text()),
    ensures
        !scan_prefix(lines, n).0.found_exception_line,
        scan_prefix(lines, n).1 != ScanMode::Done,
        scan_prefix(lines, n).1 == ScanMode::SkipNext ==> n > 0 && has_substring(
            lines[n - 1],
            ignored_exception_text(),
        ),
    decreases n,
{
    if n > 0 {
        lemma_without_crash_text(lines, (n - 1) as nat);
        assert(!has_substring(lines[n - 1], hardware_exception_text()));
    }
}

/// The scan takes the line at `index` for a line of `marker`, and the line
/// carries the message `message`.
pub open spec fn message_line(
    lines: Seq<Seq<char>>,
    index: nat,
    marker: Marker,
    message: Seq<char>,
) -> bool {
    &&& classified(lines, index)
    &&& marker_at(lines, index) == marker
    &&& from_first(lines[index as int], '"') == Some(message)
}

/// How many of the first `n` lines the scan takes for a line of `marker`
/// with the message `message`.
pub open spec fn message_lines(
    lines: Seq<Seq<char>>,
    n: nat,
    marker: Marker,
    message: Seq<char>,
) -> nat
    decreases n,
{
    if n == 0 {
        0
    } else {
        message_lines(lines, (n - 1) as nat, marker, message) + if message_line(
            lines,
            (n - 1) as nat,
            marker,
            message,
        ) {
            1nat
        } else {
            0nat
        }
    }
}

/// The scan takes the line at `index` for a line that carries a message,
/// and the line has no double quote.
pub open spec fn malformed_line(lines: Seq<Seq<char>>, index: nat) -> bool {
    &&& classified(lines, index)
    &&& (marker_at(lines, index) == Marker::HardwareException || marker_at(lines, index)
        == Marker::AssertionFail || marker_at(lines, index) == Marker::SkippedExtension)
    &&& from_first(lines[index as int], '"') is None
}

/// How many of the first `n` lines are malformed.
pub open spec fn malformed_lines(lines: Seq<Seq<char>>, n: nat) -> nat
    decreases n,
{
    if n == 0 {
        0
    } else {
        malformed_lines(lines, (n - 1) as nat) + if malformed_line(lines, (n - 1) as nat) {
            1nat
        } else {
            0nat
        }
    }
}

/// The scan takes the line at `index` for the head of the stack trace.
pub open spec fn stack_head_line(lines: Seq<Seq<char>>, index: nat) -> bool {
    classified(lines, index) && marker_at(lines, index) == Marker::StackTrace
}

/// After `n` lines each message is counted as often as the scan took a line
/// for a line with that message: failed assertions and skipped extensions
/// each by their own lines.
pub proof fn lemma_counts(lines: Seq<Seq<char>>, n: nat, message: Seq<char>)
    ensures
        count_of(scan_prefix(lines, n).0.assertion_counts, message) == message_lines(
            lines,
            n,
            Marker::AssertionFail,
            message,
        ),
        count_of(scan_prefix(lines, n).0.skipped_counts, message) == message_lines(
            lines,
            n,
            Marker::SkippedExtension,
            message,
        ),
    decreases n,
{
    if n > 0 {
        let m = (n - 1) as nat;
        lemma_counts(lines, m, message);
        let before = scan_prefix(lines, m).0;
        if let Some(found) = from_first(lines[m as int], '"') {
            lemma_tally_add_counts(before.assertion_counts, found, message);
            lemma_tally_add_counts(before.skipped_counts, found, message);
        }
    }
}

/// After `n` lines the malformed lines are counted.
pub proof fn lemma_malformed_count(lines: Seq<Seq<char>>, n: nat)
    ensures
        scan_prefix(lines, n).0.malformed_marker_lines == malformed_lines(lines, n),
    decreases n,
{
    if n > 0 {
        lemma_malformed_count(lines, (n - 1) as nat);
    }
}

/// The crash message is that of the last line that the scan took for a
/// crash line with a message.
pub proof fn lemma_crash_message(lines: Seq<Seq<char>>, n: nat, i: nat)
    requires
        i < n,
        crash_line(lines, i),
        forall|j: nat| i < j < n ==> !#[trigger] crash_line(lines, j),
    ensures
        scan_prefix(lines, n).0.crash_message == from_first(lines[i as int], '"'),
    decreases n,
{
    let m = (n - 1) as nat;
    if i < m {
        lemma_crash_message(lines, m, i);
        assert(!crash_line(lines, m));
    }
}

/// The records of the stack trace start two lines after the line that the
/// scan took for the head of the trace, and the scan ends with that line.
pub proof fn lemma_stack_trace_start(lines: Seq<Seq<char>>, n: nat, i: nat)
    requires
        i < n,
        stack_head_line(lines, i),
    ensures
        scan_prefix(lines, n).0.stack_trace_start == Some(i + 2),
        scan_prefix(lines, n).1 == ScanMode::Done,
        forall|j: nat| i < j ==> !#[trigger] classified(lines, j),
{
    assert(scan_prefix(lines, i + 1).1 == ScanMode::Done);
    lemma_scan_done_stays(lines, i + 1, n);
    assert forall|j: nat| i < j implies !#[trigger] classified(lines, j) by {
        lemma_scan_done_stays(lines, i + 1, j);
    }
}

/// Without a line that the scan took for the head of the stack trace, the
/// start of the trace is not set.
pub proof fn lemma_no_stack_trace(lines: Seq<Seq<char>>, n: nat)
    requires
        forall|i: nat| i < n ==> !#[trigger] stack_head_line(lines, i),
    ensures
        scan_prefix(lines, n).0.stack_trace_start is None,
        scan_prefix(lines, n).1 != ScanMode::Done,
    decreases n,
{
    if n > 0 {
        let m = (n - 1) as nat;
        lemma_no_stack_trace(lines, m);
        assert(!stack_head_line(lines, m));
    }
}

/// The line after an ignored exception is passed over: whatever it holds,
/// the scan after it is as it was before the ignored exception.
pub proof fn lemma_line_after_ignored_exception(lines: Seq<Seq<char>>, i: nat)
    requires
        classified(lines, i),
        marker_at(lines, i) == Marker::IgnoredException,
    ensures
        !classified(lines, i + 1),
        scan_prefix(lines, i + 2) == (scan_prefix(lines, i).0, ScanMode::Scanning),
{
    assert(scan_prefix(lines, i + 1) == (scan_prefix(lines, i).0, ScanMode::SkipNext));
}

} // verus!
