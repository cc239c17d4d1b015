//! The crash report: what the scan and the stack trace add up to.

use vstd::prelude::*;
use vstd::utf8::{decode_utf8, valid_utf8};
use crate::culprits::{culprits_of, extract_culprits, is_system_module, lemma_culprits_sound, stack_records, stack_region, CulpritSet};
use crate::error::AnalysisError;
use crate::lines::{lines_of, split_lines};
use crate::scan::{assertion_fail_text, crash_line, exit_line, game_exit_text, hardware_exception_text, ignored_exception_text, scan_markers, scan_of, skipped_extension_text, unmarked, ScanState, ScanView};
use crate::scan_laws::{lemma_found_exception, lemma_game_exit, lemma_unmarked_lines, lemma_without_crash_text};
use crate::tally::Tally;
use crate::text::{decode_text, has_substring};

verus! {

/// A cause that the culprits give away.
#[derive(Debug, Clone, Copy, PartialEq, Eq, Structural)]
pub enum KnownCause {
    /// The game itself crashed.
    GameCrash,
    /// NVIDIA Smooth Motion is at fault.
    NvidiaSmoothMotion,
}

/// The module of the game itself.
pub open spec fn game_module() -> Seq<char> {
    "gw2-64"@
}

/// The module of NVIDIA Smooth Motion.
pub open spec fn smooth_motion_module() -> Seq<char> {
    "nvpresent64"@
}

/// The cause that `culprits` give away: NVIDIA Smooth Motion where its
/// module is among them, the game where its module is the only culprit.
pub open spec fn hint_of(culprits: Seq<Seq<char>>) -> Option<KnownCause> {
    if culprits.contains(smooth_motion_module()) {
        Some(KnownCause::NvidiaSmoothMotion)
    } else if culprits.len() == 1 && culprits[0] == game_module() {
        Some(KnownCause::GameCrash)
    } else {
        None
    }
}

/// What a report says.
pub struct ReportView {
    pub crash_message: Option<Seq<char>>,
    pub game_exited_unknown_cause: bool,
    pub skipped_extensions: Seq<(Seq<char>, nat)>,
    pub assertion_fails: Seq<(Seq<char>, nat)>,
    pub culprits: Seq<Seq<char>>,
    pub known_cause_hint: Option<KnownCause>,
}

/// The report that says nothing.
pub open spec fn empty_report() -> ReportView {
    ReportView {
        crash_message: None,
        game_exited_unknown_cause: false,
        skipped_extensions: Seq::empty(),
        assertion_fails: Seq::empty(),
        culprits: Seq::empty(),
        known_cause_hint: None,
    }
}

/// The report of a game that exited for an unknown cause: it says that and
/// nothing else.
pub open spec fn exit_only_report() -> ReportView {
    ReportView { game_exited_unknown_cause: true, ..empty_report() }
}

/// The report for what a scan has gathered and the culprits of the stack
/// trace. Where the game's exit was seen and no crash line was found, it is
/// the report of an exit for an unknown cause.
pub open spec fn report_of(scan: ScanView, culprits: Seq<Seq<char>>) -> ReportView {
    if !scan.found_exception_line && scan.game_exit {
        exit_only_report()
    } else {
        ReportView {
            crash_message: scan.crash_message,
            game_exited_unknown_cause: false,
            skipped_extensions: scan.skipped_counts,
            assertion_fails: scan.assertion_counts,
            culprits: culprits,
            known_cause_hint: hint_of(culprits),
        }
    }
}

/// The report for a log with these lines.
pub open spec fn analysis_of(lines: Seq<Seq<char>>) -> ReportView {
    let scan = scan_of(lines);
    report_of(scan, culprits_of(stack_records(lines, scan.stack_trace_start)))
}

/// The two known causes exclude each other: where the module of the game is
/// the only culprit, the module of NVIDIA Smooth Motion is none.
pub proof fn lemma_known_causes_exclusive(culprits: Seq<Seq<char>>)
    ensures
        !(culprits.contains(smooth_motion_module()) && culprits.len() == 1 && culprits[0]
            == game_module()),
{
    reveal_strlit("gw2-64");
    reveal_strlit("nvpresent64");
    if culprits.len() == 1 && culprits[0] == game_module() && culprits.contains(
        smooth_motion_module(),
    ) {
        assert(culprits[0] == smooth_motion_module());
        assert(game_module().len() == 6);
        assert(smooth_motion_module().len() == 11);
    }
}

/// A report of an exit for an unknown cause says nothing else.
pub proof fn lemma_exit_report_is_bare(scan: ScanView, culprits: Seq<Seq<char>>)
    ensures
        report_of(scan, culprits).game_exited_unknown_cause ==> report_of(scan, culprits)
            == exit_only_report(),
        report_of(scan, culprits).game_exited_unknown_cause <==> !scan.found_exception_line
            && scan.game_exit,
{
}

/// A log in which no line holds a marker text gives the report that says nothing.
pub proof fn lemma_unmarked_log(lines: Seq<Seq<char>>)
    requires
        forall|i: int| 0 <= i < lines.len() ==> unmarked(#[trigger] lines[i]),
    ensures
        analysis_of(lines) == empty_report(),
{
    lemma_unmarked_lines(lines, lines.len());
    assert(!Seq::<Seq<char>>::empty().contains(smooth_motion_module()));
}

/// The report is that of an exit for an unknown cause exactly if the scan
/// took some line for the line of the game's exit and no line for a crash
/// line with a message.
pub proof fn lemma_exit_only(lines: Seq<Seq<char>>)
    ensures
        analysis_of(lines) == exit_only_report() <==> (exists|j: nat|
            j < lines.len() && #[trigger] exit_line(lines, j)) && (forall|i: nat|
            i < lines.len() ==> !#[trigger] crash_line(lines, i)),
        analysis_of(lines).game_exited_unknown_cause <==> analysis_of(lines) == exit_only_report(),
{
    lemma_found_exception(lines, lines.len());
    lemma_game_exit(lines, lines.len());
}

/// Where a line holds the text of the game's exit and none of the texts
/// that go before it, the line before it does not hold the text of an
/// ignored exception, and no line of the log holds the text of the crash,
/// the report is that of an exit for an unknown cause.
pub proof fn lemma_exit_without_crash(lines: Seq<Seq<char>>, j: int)
    requires
        0 <= j < lines.len(),
        has_substring(lines[j], game_exit_text()),
        !has_substring(lines[j], assertion_fail_text()),
        !has_substring(lines[j], skipped_extension_text()),
        !has_substring(lines[j], ignored_exception_text()),
        j > 0 ==> !has_substring(lines[j - 1], ignored_exception_text()),
        forall|i: int|
            0 <= i < lines.len() ==> !has_substring(#[trigger] lines[i], hardware_exception_text()),
    ensures
        analysis_of(lines) == exit_only_report(),
{
    lemma_without_crash_text(lines, j as nat);
    lemma_without_crash_text(lines, lines.len());
    assert(!has_substring(lines[j], hardware_exception_text()));
    assert(exit_line(lines, j as nat));
    lemma_game_exit(lines, lines.len());
}

/// Two reports for the same text are equal, and so are their sets of culprits.
pub proof fn lemma_analysis_repeatable(text: Seq<char>, first: ReportView, second: ReportView)
    requires
        first == analysis_of(lines_of(text)),
        second == analysis_of(lines_of(text)),
    ensures
        first == second,
        first.culprits.to_set() == second.culprits.to_set(),
{
}

/// No culprit of a report is a module of the operating system, and none
/// stands twice.
pub proof fn lemma_report_culprits(lines: Seq<Seq<char>>)
    ensures
        analysis_of(lines).culprits.no_duplicates(),
        forall|k: int|
            0 <= k < analysis_of(lines).culprits.len() ==> !is_system_module(
                #[trigger] analysis_of(lines).culprits[k],
            ),
{
    lemma_culprits_sound(stack_records(lines, scan_of(lines).stack_trace_start));
}

/// The summary of one crash log.
#[derive(Debug, Clone, PartialEq, Eq)]
pub struct CrashReport {
    /// The message of the crash line.
    pub crash_message: Option<String>,
    /// The game exited and nothing tells why. The other fields are then empty.
    pub game_exited_unknown_cause: bool,
    /// Skipped extensions by message.
    pub skipped_extensions: Tally,
    /// Failed assertions by message.
    pub assertion_fails: Tally,
    /// The modules that the stack trace names.
    pub culprits: CulpritSet,
    /// A cause that the culprits give away.
    pub known_cause_hint: Option<KnownCause>,
}

impl View for CrashReport {
    type V = ReportView;

    open spec fn view(&self) -> ReportView {
        ReportView {
            crash_message: match self.crash_message {
                Some(message) => Some(message@),
                None => None,
            },
            game_exited_unknown_cause: self.game_exited_unknown_cause,
            skipped_extensions: self.skipped_extensions@,
            assertion_fails: self.assertion_fails@,
            culprits: self.culprits@,
            known_cause_hint: self.known_cause_hint,
        }
    }
}

impl CrashReport {
    /// The tallies and the culprits are in order.
    pub open spec fn wf(&self) -> bool {
        self.skipped_extensions.wf() && self.assertion_fails.wf() && self.culprits.wf()
    }

    /// The report of a game that exited for an unknown cause.
    pub fn exit_only() -> (report: CrashReport)
        ensures
            report@ == exit_only_report(),
            report.wf(),
    {
        CrashReport {
            crash_message: None,
            game_exited_unknown_cause: true,
            skipped_extensions: Tally::new(),
            assertion_fails: Tally::new(),
            culprits: CulpritSet::new(),
            known_cause_hint: None,
        }
    }
}

/// The cause that `culprits` give away.
pub fn known_cause(culprits: &CulpritSet) -> (hint: Option<KnownCause>)
    ensures
        hint == hint_of(culprits@),
{
    if culprits.contains("nvpresent64") {
        Some(KnownCause::NvidiaSmoothMotion)
    } else if culprits.len() == 1 && culprits.contains("gw2-64") {
        Some(KnownCause::GameCrash)
    } else {
        if culprits.len() == 1 {
            assert(culprits@[0] != game_module()) by {
                if culprits@[0] == game_module() {
                    assert(culprits@.contains(culprits@[0]));
                }
            }
        }
        None
    }
}

/// Makes the report of what a scan has gathered and the culprits of the
/// stack trace.
pub fn build_report(state: ScanState, culprits: CulpritSet) -> (report: CrashReport)
    requires
        state.wf(),
        culprits.wf(),
    ensures
        report@ == report_of(state@, culprits@),
        report.wf(),
{
    if !state.found_exception_line && state.game_exit {
        CrashReport::exit_only()
    } else {
        let hint = known_cause(&culprits);
        CrashReport {
            crash_message: state.crash_message,
            game_exited_unknown_cause: false,
            skipped_extensions: state.skipped_counts,
            assertion_fails: state.assertion_counts,
            culprits: culprits,
            known_cause_hint: hint,
        }
    }
}

/// Analyses a log given as its lines.
pub fn analyze_lines(lines: &Vec<String>) -> (report: CrashReport)
    ensures
        report@ == analysis_of(lines.deep_view()),
        report.wf(),
{
    let state = scan_markers(lines);
    let start = state.stack_region_start(lines.len());
    let culprits = extract_culprits(lines, start);
    assert(stack_region(lines.deep_view(), start as nat) =~= stack_records(
        lines.deep_view(),
        state@.stack_trace_start,
    ));
    build_report(state, culprits)
}

/// Analyses a log given as text.
pub fn analyze(text: &str) -> (report: CrashReport)
    ensures
        report@ == analysis_of(lines_of(text@)),
        report.wf(),
{
    let lines = split_lines(text);
    analyze_lines(&lines)
}

/// Analyses a log given as bytes. The bytes must be UTF-8 text; where they
/// are not, the error says so and nothing is analysed.
pub fn analyze_bytes(bytes: &[u8]) -> (result: Result<CrashReport, AnalysisError>)
    ensures
        valid_utf8(bytes@) ==> result is Ok && result->Ok_0@ == analysis_of(
            lines_of(decode_utf8(bytes@)),
        ) && result->Ok_0.wf(),
        !valid_utf8(bytes@) ==> result == Err::<CrashReport, AnalysisError>(
            AnalysisError::NotUtf8,
        ),
{
    match decode_text(bytes) {
        Some(text) => Ok(analyze(text)),
        None => Err(AnalysisError::NotUtf8),
    }
}

} // verus!
