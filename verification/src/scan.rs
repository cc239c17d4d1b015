//! The forward scan over the lines of a log: which marker each line carries,
//! and what the scan has gathered once it has passed a line.

use vstd::prelude::*;
use crate::tally::{counts_within, distinct_keys, lemma_tally_add_keeps, positive_counts, tally_add, Tally};
use crate::text::{contains, find_char, from_first, has_substring, string_of, to_chars};

verus! {

/// The text that marks the line of the crash itself.
pub open spec fn hardware_exception_text() -> Seq<char> {
    "intercepted unhandled hardware exception"@
}

/// The text that marks a failed assertion of the game.
pub open spec fn assertion_fail_text() -> Seq<char> {
    "intercepted gw2 assertion fail"@
}

/// The text that marks an extension that was not loaded.
pub open spec fn skipped_extension_text() -> Seq<char> {
    "skipped extension"@
}

/// The text that marks an exception that was passed over, together with the
/// line after it.
pub open spec fn ignored_exception_text() -> Seq<char> {
    "ignoring hardware exception"@
}

/// The text that marks the head of the stack trace.
pub open spec fn stack_trace_text() -> Seq<char> {
    "RVA"@
}

/// The text that marks the exit of the game.
pub open spec fn game_exit_text() -> Seq<char> {
    "info: game exit"@
}

/// What a line is taken for.
#[derive(Debug, Clone, Copy, PartialEq, Eq, Structural)]
pub enum Marker {
    HardwareException,
    AssertionFail,
    SkippedExtension,
    IgnoredException,
    StackTrace,
    GameExit,
    Unmarked,
}

/// The marker of `line`: the first of the six whose text the line holds. The
/// head of the stack trace counts only once the crash line was found.
pub open spec fn classify(line: Seq<char>, found_exception_line: bool) -> Marker {
    if has_substring(line, hardware_exception_text()) {
        Marker::HardwareException
    } else if has_substring(line, assertion_fail_text()) {
        Marker::AssertionFail
    } else if has_substring(line, skipped_extension_text()) {
        Marker::SkippedExtension
    } else if has_substring(line, ignored_exception_text()) {
        Marker::IgnoredException
    } else if has_substring(line, stack_trace_text()) && found_exception_line {
        Marker::StackTrace
    } else if has_substring(line, game_exit_text()) {
        Marker::GameExit
    } else {
        Marker::Unmarked
    }
}

/// What the scan does with the next line.
#[derive(Debug, Clone, Copy, PartialEq, Eq, Structural)]
pub enum ScanMode {
    /// The line is classified.
    Scanning,
    /// The line is passed over: it follows an ignored exception.
    SkipNext,
    /// The head of the stack trace was found: no further line is classified.
    Done,
}

/// What a scan has gathered.
pub struct ScanView {
    pub found_exception_line: bool,
    pub game_exit: bool,
    pub stack_trace_start: Option<nat>,
    pub crash_message: Option<Seq<char>>,
    pub assertion_counts: Seq<(Seq<char>, nat)>,
    pub skipped_counts: Seq<(Seq<char>, nat)>,
    pub malformed_marker_lines: nat,
}

/// What a scan has gathered before its first line.
pub open spec fn scan_start() -> ScanView {
    ScanView {
        found_exception_line: false,
        game_exit: false,
        stack_trace_start: None,
        crash_message: None,
        assertion_counts: Seq::empty(),
        skipped_counts: Seq::empty(),
        malformed_marker_lines: 0,
    }
}

/// The scan after the line `line` at index `index`, where `state` and `mode`
/// are the scan before it.
///
/// A line with the text of the crash, of a failed assertion or of a skipped
/// extension carries a message, which starts at its first double quote. One
/// without a double quote is malformed: it is counted as such and changes
/// nothing else.
pub open spec fn scan_step(state: ScanView, mode: ScanMode, index: nat, line: Seq<char>) -> (
    ScanView,
    ScanMode,
) {
    match mode {
        ScanMode::Done => (state, ScanMode::Done),
        ScanMode::SkipNext => (state, ScanMode::Scanning),
        ScanMode::Scanning => {
            let malformed = ScanView {
                malformed_marker_lines: state.malformed_marker_lines + 1,
                ..state
            };
            match classify(line, state.found_exception_line) {
                Marker::HardwareException => match from_first(line, '"') {
                    Some(message) => (
                        ScanView {
                            found_exception_line: true,
                            crash_message: Some(message),
                            ..state
                        },
                        ScanMode::Scanning,
                    ),
                    None => (malformed, ScanMode::Scanning),
                },
                Marker::AssertionFail => match from_first(line, '"') {
                    Some(message) => (
                        ScanView {
                            assertion_counts: tally_add(state.assertion_counts, message),
                            ..state
                        },
                        ScanMode::Scanning,
                    ),
                    None => (malformed, ScanMode::Scanning),
                },
                Marker::SkippedExtension => match from_first(line, '"') {
                    Some(message) => (
                        ScanView {
                            skipped_counts: tally_add(state.skipped_counts, message),
                            ..state
                        },
                        ScanMode::Scanning,
                    ),
                    None => (malformed, ScanMode::Scanning),
                },
                Marker::IgnoredException => (state, ScanMode::SkipNext),
                Marker::StackTrace => (
                    ScanView { stack_trace_start: Some(index + 2), ..state },
                    ScanMode::Done,
                ),
                Marker::GameExit => (ScanView { game_exit: true, ..state }, ScanMode::Scanning),
                Marker::Unmarked => (state, ScanMode::Scanning),
            }
        },
    }
}

/// The scan after the first `n` lines of `lines`.
pub open spec fn scan_prefix(lines: Seq<Seq<char>>, n: nat) -> (ScanView, ScanMode)
    decreases n,
{
    if n == 0 {
        (scan_start(), ScanMode::Scanning)
    } else {
        let before = scan_prefix(lines, (n - 1) as nat);
        scan_step(before.0, before.1, (n - 1) as nat, lines[n - 1])
    }
}

/// What the scan of `lines` gathers.
pub open spec fn scan_of(lines: Seq<Seq<char>>) -> ScanView {
    scan_prefix(lines, lines.len()).0
}

/// The scan classifies the line at `index`: it neither follows an ignored
/// exception that was classified, nor the head of the stack trace.
pub open spec fn classified(lines: Seq<Seq<char>>, index: nat) -> bool {
    scan_prefix(lines, index).1 == ScanMode::Scanning
}

/// The marker that the scan finds on the line at `index`, where it classifies it.
pub open spec fn marker_at(lines: Seq<Seq<char>>, index: nat) -> Marker {
    classify(lines[index as int], scan_prefix(lines, index).0.found_exception_line)
}

/// The scan takes the line at `index` for the crash line, and the line
/// carries a message.
pub open spec fn crash_line(lines: Seq<Seq<char>>, index: nat) -> bool {
    &&& classified(lines, index)
    &&& marker_at(lines, index) == Marker::HardwareException
    &&& from_first(lines[index as int], '"') is Some
}

/// The scan takes the line at `index` for the line of the game's exit.
pub open spec fn exit_line(lines: Seq<Seq<char>>, index: nat) -> bool {
    classified(lines, index) && marker_at(lines, index) == Marker::GameExit
}

/// The line holds none of the six marker texts.
pub open spec fn unmarked(line: Seq<char>) -> bool {
    &&& !has_substring(line, hardware_exception_text())
    &&& !has_substring(line, assertion_fail_text())
    &&& !has_substring(line, skipped_extension_text())
    &&& !has_substring(line, ignored_exception_text())
    &&& !has_substring(line, stack_trace_text())
    &&& !has_substring(line, game_exit_text())
}

/// The tallies of `state` are in order and no count in them, nor the count
/// of malformed lines, is above `bound`.
pub open spec fn scan_within(state: ScanView, bound: nat) -> bool {
    &&& distinct_keys(state.assertion_counts)
    &&& positive_counts(state.assertion_counts)
    &&& counts_within(state.assertion_counts, bound)
    &&& distinct_keys(state.skipped_counts)
    &&& positive_counts(state.skipped_counts)
    &&& counts_within(state.skipped_counts, bound)
    &&& state.malformed_marker_lines <= bound
}

/// A step keeps the tallies in order and raises no count by more than one.
pub proof fn lemma_scan_step_within(
    state: ScanView,
    mode: ScanMode,
    index: nat,
    line: Seq<char>,
    bound: nat,
)
    requires
        scan_within(state, bound),
    ensures
        scan_within(scan_step(state, mode, index, line).0, bound + 1),
{
    if let Some(message) = from_first(line, '"') {
        lemma_tally_add_keeps(state.assertion_counts, message, bound);
        lemma_tally_add_keeps(state.skipped_counts, message, bound);
    }
}

/// After `n` lines no message was counted more than `n` times, and no
/// message has two entries.
pub proof fn lemma_scan_prefix_within(lines: Seq<Seq<char>>, n: nat)
    ensures
        scan_within(scan_prefix(lines, n).0, n),
    decreases n,
{
    if n > 0 {
        lemma_scan_prefix_within(lines, (n - 1) as nat);
        let before = scan_prefix(lines, (n - 1) as nat);
        lemma_scan_step_within(before.0, before.1, (n - 1) as nat, lines[n - 1], (n - 1) as nat);
    }
}

/// Once the head of the stack trace was found, further lines change nothing.
pub proof fn lemma_scan_done_stays(lines: Seq<Seq<char>>, n: nat, m: nat)
    requires
        n <= m,
        scan_prefix(lines, n).1 == ScanMode::Done,
    ensures
        scan_prefix(lines, m) == scan_prefix(lines, n),
    decreases m,
{
    if n < m {
        lemma_scan_done_stays(lines, n, (m - 1) as nat);
    }
}

/// The texts of the six markers, as characters.
pub struct MarkerTexts {
    hardware_exception: Vec<char>,
    assertion_fail: Vec<char>,
    skipped_extension: Vec<char>,
    ignored_exception: Vec<char>,
    stack_trace: Vec<char>,
    game_exit: Vec<char>,
}

impl MarkerTexts {
    /// Each field holds the text of its marker.
    pub closed spec fn wf(&self) -> bool {
        &&& self.hardware_exception@ == hardware_exception_text()
        &&& self.assertion_fail@ == assertion_fail_text()
        &&& self.skipped_extension@ == skipped_extension_text()
        &&& self.ignored_exception@ == ignored_exception_text()
        &&& self.stack_trace@ == stack_trace_text()
        &&& self.game_exit@ == game_exit_text()
    }

    /// The texts of the six markers.
    pub fn new() -> (texts: MarkerTexts)
        ensures
            texts.wf(),
    {
        MarkerTexts {
            hardware_exception: to_chars("intercepted unhandled hardware exception"),
            assertion_fail: to_chars("intercepted gw2 assertion fail"),
            skipped_extension: to_chars("skipped extension"),
            ignored_exception: to_chars("ignoring hardware exception"),
            stack_trace: to_chars("RVA"),
            game_exit: to_chars("info: game exit"),
        }
    }

    /// The marker of `line`.
    pub fn classify(&self, line: &[char], found_exception_line: bool) -> (marker: Marker)
        requires
            self.wf(),
        ensures
            marker == classify(line@, found_exception_line),
    {
        if contains(line, self.hardware_exception.as_slice()) {
            Marker::HardwareException
        } else if contains(line, self.assertion_fail.as_slice()) {
            Marker::AssertionFail
        } else if contains(line, self.skipped_extension.as_slice()) {
            Marker::SkippedExtension
        } else if contains(line, self.ignored_exception.as_slice()) {
            Marker::IgnoredException
        } else if found_exception_line && contains(line, self.stack_trace.as_slice()) {
            Marker::StackTrace
        } else if contains(line, self.game_exit.as_slice()) {
            Marker::GameExit
        } else {
            Marker::Unmarked
        }
    }
}

/// The message of a marker line: the line from its first double quote on.
/// `None` where the line has no double quote.
pub fn quoted_message(line: &[char]) -> (message: Option<String>)
    ensures
        message is Some <==> from_first(line@, '"') is Some,
        message matches Some(m) ==> Some(m@) == from_first(line@, '"'),
{
    let at = find_char(line, '"');
    if at < line.len() {
        let message = string_of(line, at, line.len());
        assert(line@.subrange(at as int, line@.len() as int) =~= line@.skip(at as int));
        Some(message)
    } else {
        None
    }
}

/// What a scan has gathered.
#[derive(Debug, Clone, PartialEq, Eq)]
pub struct ScanState {
    /// A line with the text of the crash and a message was classified.
    pub found_exception_line: bool,
    /// A line with the text of the game's exit was classified.
    pub game_exit: bool,
    /// The index of the line that heads the stack trace. The records of the
    /// trace start two lines after it.
    pub stack_trace_marker: Option<usize>,
    /// The message of the last crash line.
    pub crash_message: Option<String>,
    /// Failed assertions by message.
    pub assertion_counts: Tally,
    /// Skipped extensions by message.
    pub skipped_counts: Tally,
    /// How many lines had the text of a marker that carries a message, and
    /// no double quote.
    pub malformed_marker_lines: usize,
}

impl View for ScanState {
    type V = ScanView;

    open spec fn view(&self) -> ScanView {
        ScanView {
            found_exception_line: self.found_exception_line,
            game_exit: self.game_exit,
            stack_trace_start: match self.stack_trace_marker {
                Some(index) => Some((index + 2) as nat),
                None => None,
            },
            crash_message: match self.crash_message {
                Some(message) => Some(message@),
                None => None,
            },
            assertion_counts: self.assertion_counts@,
            skipped_counts: self.skipped_counts@,
            malformed_marker_lines: self.malformed_marker_lines as nat,
        }
    }
}

impl ScanState {
    /// Both tallies are in order.
    pub open spec fn wf(&self) -> bool {
        self.assertion_counts.wf() && self.skipped_counts.wf()
    }

    /// The scan before its first line.
    pub fn new() -> (state: ScanState)
        ensures
            state@ == scan_start(),
            state.wf(),
    {
        ScanState {
            found_exception_line: false,
            game_exit: false,
            stack_trace_marker: None,
            crash_message: None,
            assertion_counts: Tally::new(),
            skipped_counts: Tally::new(),
            malformed_marker_lines: 0,
        }
    }

    /// The index of the first record of the stack trace among `line_count`
    /// lines: two lines after the head of the trace. `line_count` where no
    /// head was found or fewer than two lines follow it.
    pub fn stack_region_start(&self, line_count: usize) -> (start: usize)
        ensures
            start == stack_region_start(self@.stack_trace_start, line_count as nat),
    {
        match self.stack_trace_marker {
            Some(index) => {
                if index < line_count && line_count - index >= 2 {
                    index + 2
                } else {
                    line_count
                }
            },
            None => line_count,
        }
    }

    /// Takes the scan over the line `line` at index `index`, and returns what
    /// the scan does with the line after it.
    pub fn observe(&mut self, texts: &MarkerTexts, mode: ScanMode, index: usize, line: &str) -> (next:
        ScanMode)
        requires
            texts.wf(),
            old(self).wf(),
            scan_within(old(self)@, index as nat),
            index < usize::MAX,
        ensures
            (final(self)@, next) == scan_step(old(self)@, mode, index as nat, line@),
            final(self).wf(),
            scan_within(final(self)@, (index + 1) as nat),
    {
        proof {
            lemma_scan_step_within(self@, mode, index as nat, line@, index as nat);
        }
        match mode {
            ScanMode::Done => ScanMode::Done,
            ScanMode::SkipNext => ScanMode::Scanning,
            ScanMode::Scanning => {
                let chars = to_chars(line);
                match texts.classify(chars.as_slice(), self.found_exception_line) {
                    Marker::HardwareException => {
                        match quoted_message(chars.as_slice()) {
                            Some(message) => {
                                self.found_exception_line = true;
                                self.crash_message = Some(message);
                            },
                            None => {
                                self.malformed_marker_lines = self.malformed_marker_lines + 1;
                            },
                        }
                        ScanMode::Scanning
                    },
                    Marker::AssertionFail => {
                        match quoted_message(chars.as_slice()) {
                            Some(message) => {
                                self.assertion_counts.record(message);
                            },
                            None => {
                                self.malformed_marker_lines = self.malformed_marker_lines + 1;
                            },
                        }
                        ScanMode::Scanning
                    },
                    Marker::SkippedExtension => {
                        match quoted_message(chars.as_slice()) {
                            Some(message) => {
                                self.skipped_counts.record(message);
                            },
                            None => {
                                self.malformed_marker_lines = self.malformed_marker_lines + 1;
                            },
                        }
                        ScanMode::Scanning
                    },
                    Marker::IgnoredException => ScanMode::SkipNext,
                    Marker::StackTrace => {
                        self.stack_trace_marker = Some(index);
                        ScanMode::Done
                    },
                    Marker::GameExit => {
                        self.game_exit = true;
                        ScanMode::Scanning
                    },
                    Marker::Unmarked => ScanMode::Scanning,
                }
            },
        }
    }
}

/// The index of the first record of the stack trace among `line_count`
/// lines: `start` where the scan has set it and it is a line, `line_count`
/// otherwise.
pub open spec fn stack_region_start(start: Option<nat>, line_count: nat) -> nat {
    match start {
        Some(index) => if index <= line_count {
            index
        } else {
            line_count
        },
        None => line_count,
    }
}

/// Scans `lines` from the first on and returns what the scan gathers.
pub fn scan_markers(lines: &Vec<String>) -> (state: ScanState)
    ensures
        state@ == scan_of(lines.deep_view()),
        state.wf(),
{
    let texts = MarkerTexts::new();
    let mut state = ScanState::new();
    let mut mode = ScanMode::Scanning;
    let mut index: usize = 0;
    while index < lines.len() && mode != ScanMode::Done
        invariant
            texts.wf(),
            index <= lines@.len(),
            (state@, mode) == scan_prefix(lines.deep_view(), index as nat),
            state.wf(),
            scan_within(state@, index as nat),
        decreases lines.len() - index,
    {
        assert(lines.deep_view()[index as int] == lines@[index as int]@);
        mode = state.observe(&texts, mode, index, lines[index].as_str());
        index += 1;
    }
    proof {
        if mode == ScanMode::Done {
            lemma_scan_done_stays(lines.deep_view(), index as nat, lines@.len());
        }
    }
    state
}

} // verus!
