use crashlog::culprits::{culprit_candidate, extract_culprits, is_system_module_name, CulpritSet, SystemModules};
use crashlog::error::AnalysisError;
use crashlog::report::{analyze, analyze_bytes, analyze_lines, build_report, known_cause, CrashReport, KnownCause};
use crashlog::scan::{scan_markers, quoted_message, Marker, MarkerTexts, ScanMode, ScanState};
use crashlog::tally::Tally;

fn lines(text: &[&str]) -> Vec<String> {
    text.iter().map(|l| l.to_string()).collect()
}

fn names(set: &CulpritSet) -> Vec<String> {
    (0..set.len()).map(|i| set.get(i).clone()).collect()
}

fn entries(tally: &Tally) -> Vec<(String, usize)> {
    (0..tally.len()).map(|i| (tally.key(i).clone(), tally.count(i))).collect()
}

fn chars(text: &str) -> Vec<char> {
    text.chars().collect()
}

fn assert_empty(report: &CrashReport) {
    assert_eq!(report.crash_message, None);
    assert!(!report.game_exited_unknown_cause);
    assert!(report.skipped_extensions.is_empty());
    assert!(report.assertion_fails.is_empty());
    assert!(report.culprits.is_empty());
    assert_eq!(report.known_cause_hint, None);
}

#[test]
fn single_crash_with_one_stack_record() {
    let report = analyze(
        "intercepted unhandled hardware exception \"0xC0000005\"\n\
         some other line\n\
         frame  RVA  module\n\
         header one\n\
         header two\n\
         0  1  2  gw2-64.dll\n",
    );
    assert_eq!(report.crash_message, Some("\"0xC0000005\"".to_string()));
    assert_eq!(names(&report.culprits), vec!["gw2-64.dll".to_string()]);
    assert_eq!(report.known_cause_hint, None);
    assert!(!report.game_exited_unknown_cause);
    assert!(report.skipped_extensions.is_empty());
    assert!(report.assertion_fails.is_empty());
}

#[test]
fn equal_skipped_messages_are_counted_together() {
    let report = analyze(
        "warn: skipped extension \"foo.dll\"\nnoise\nwarn: skipped extension \"foo.dll\"\n",
    );
    assert_eq!(report.skipped_extensions.count_of("\"foo.dll\""), 2);
    assert_eq!(entries(&report.skipped_extensions), vec![("\"foo.dll\"".to_string(), 2)]);
    assert!(report.assertion_fails.is_empty());
}

#[test]
fn line_after_ignored_exception_is_passed_over() {
    let report = analyze(
        "ignoring hardware exception 0x1\n\
         intercepted unhandled hardware exception \"spurious\"\n\
         skipped extension \"real\"\n",
    );
    assert_eq!(report.crash_message, None);
    assert_eq!(entries(&report.skipped_extensions), vec![("\"real\"".to_string(), 1)]);
    assert!(report.assertion_fails.is_empty());
    assert!(report.culprits.is_empty());

    let state = scan_markers(&lines(&[
        "ignoring hardware exception 0x1",
        "intercepted gw2 assertion fail \"spurious\"",
        "ignoring hardware exception 0x2",
        "skipped extension \"spurious\"",
        "info: game exit",
    ]));
    assert!(state.assertion_counts.is_empty());
    assert!(state.skipped_counts.is_empty());
    assert!(!state.found_exception_line);
    assert!(state.game_exit);
    assert_eq!(state.malformed_marker_lines, 0);
}

#[test]
fn record_with_two_words_names_no_culprit() {
    let report = analyze(
        "intercepted unhandled hardware exception \"x\"\n\
         RVA\n\
         h1\n\
         h2\n\
         only two\n\
         0 1 2 arcdps.dll\n\
         a b c\n",
    );
    assert_eq!(names(&report.culprits), vec!["arcdps.dll".to_string()]);
    assert_eq!(culprit_candidate("only two"), None);
    assert_eq!(culprit_candidate("a b c"), None);
    assert_eq!(culprit_candidate(""), None);
}

#[test]
fn suffix_after_at_sign_is_stripped_and_name_lowered() {
    assert_eq!(culprit_candidate("0 1 2 Foo.dll@1.2.3"), Some("foo.dll".to_string()));
    assert_eq!(culprit_candidate("0 1 2 Foo.dll@1.2.3@x more words"), Some("foo.dll".to_string()));
    assert_eq!(culprit_candidate("0 1 2 @1.2.3"), Some("".to_string()));
    assert_eq!(culprit_candidate("  a\tb   c\u{3000}D3D11.DLL  "), Some("d3d11.dll".to_string()));
    let report = analyze(
        "intercepted unhandled hardware exception \"x\"\nRVA\nh\nh\n0 1 2 Foo.dll@1.2.3\n",
    );
    assert_eq!(names(&report.culprits), vec!["foo.dll".to_string()]);
}

#[test]
fn lowering_goes_beyond_ascii() {
    assert_eq!(culprit_candidate("0 1 2 ÄÖÜ.DLL"), Some("äöü.dll".to_string()));
}

#[test]
fn system_modules_never_become_culprits() {
    let report = analyze(
        "intercepted unhandled hardware exception \"x\"\n\
         RVA\n\
         h\n\
         h\n\
         0 1 2 NTDLL.dll@77\n\
         0 1 2 C:\\Windows\\KERNEL32.DLL\n\
         0 1 2 KernelBase.dll\n\
         0 1 2 ntdll64\n\
         0 1 2 xkernel32x\n\
         0 1 2 arcdps.dll\n\
         0 1 2 kernel3.dll\n",
    );
    assert_eq!(names(&report.culprits), vec!["arcdps.dll".to_string(), "kernel3.dll".to_string()]);
    assert!(is_system_module_name("ntdll"));
    assert!(is_system_module_name("prefix-kernelbase-suffix"));
    assert!(is_system_module_name("ntdll64"));
    assert!(is_system_module_name("kernel32.dll"));
    assert!(!is_system_module_name("kernel"));
    assert!(!is_system_module_name("NTDLL"));
    assert!(!is_system_module_name(""));
    let system = SystemModules::new();
    assert!(system.matches(&chars("akernel32")));
    assert!(!system.matches(&chars("ntdl")));
}

#[test]
fn only_the_name_before_the_at_sign_is_filtered() {
    assert_eq!(culprit_candidate("0 1 2 foo.dll@ntdll"), Some("foo.dll".to_string()));
    let report = analyze(
        "intercepted unhandled hardware exception \"x\"\nRVA\nh\nh\n0 1 2 foo.dll@ntdll\n0 1 2 ntdll@foo.dll\n",
    );
    assert_eq!(names(&report.culprits), vec!["foo.dll".to_string()]);
}

#[test]
fn culprits_are_kept_once_in_order_of_first_mention() {
    let report = analyze(
        "intercepted unhandled hardware exception \"x\"\n\
         RVA\n\
         h\n\
         h\n\
         0 1 2 b.dll\n\
         0 1 2 A.dll\n\
         0 1 2 B.DLL@1\n\
         0 1 2 a.dll\n\
         0 1 2 c.dll\n",
    );
    assert_eq!(
        names(&report.culprits),
        vec!["b.dll".to_string(), "a.dll".to_string(), "c.dll".to_string()]
    );
    assert!(report.culprits.contains("a.dll"));
    assert!(!report.culprits.contains("A.dll"));
    assert_eq!(report.culprits.len(), 3);
}

#[test]
fn log_without_markers_gives_empty_report() {
    assert_empty(&analyze("nothing to see\nhere at all\n0 1 2 arcdps.dll\n"));
    assert_empty(&analyze("one line without line feed"));
}

#[test]
fn empty_log_gives_empty_report() {
    assert_empty(&analyze(""));
    assert_empty(&analyze("\n\n\n"));
    assert_empty(&analyze_lines(&Vec::new()));
}

#[test]
fn stack_marker_without_crash_line_is_no_marker() {
    let report = analyze("RVA\nh\nh\n0 1 2 arcdps.dll\n");
    assert_empty(&report);
    let state = scan_markers(&lines(&["RVA", "h", "h", "0 1 2 arcdps.dll"]));
    assert_eq!(state.stack_trace_marker, None);
    assert_eq!(state.stack_region_start(4), 4);
}

#[test]
fn game_exit_without_crash_gives_exit_only_report() {
    let report = analyze("skipped extension \"a\"\ninfo: game exit\nintercepted gw2 assertion fail \"b\"\n");
    assert!(report.game_exited_unknown_cause);
    assert_eq!(report.crash_message, None);
    assert!(report.skipped_extensions.is_empty());
    assert!(report.assertion_fails.is_empty());
    assert!(report.culprits.is_empty());
    assert_eq!(report.known_cause_hint, None);
    assert_eq!(report, CrashReport::exit_only());
}

#[test]
fn game_exit_on_stack_marker_line_counts_before_the_crash() {
    let report = analyze("RVA info: game exit\n");
    assert_eq!(report, CrashReport::exit_only());
}

#[test]
fn crash_after_game_exit_is_no_exit_only_report() {
    let report = analyze(
        "info: game exit\nintercepted unhandled hardware exception \"late\"\n",
    );
    assert!(!report.game_exited_unknown_cause);
    assert_eq!(report.crash_message, Some("\"late\"".to_string()));
}

#[test]
fn swallowed_or_outranked_game_exit_is_not_seen() {
    assert_empty(&analyze("ignoring hardware exception\ninfo: game exit\n"));
    let report = analyze("skipped extension \"x\" info: game exit\n");
    assert!(!report.game_exited_unknown_cause);
    assert_eq!(report.skipped_extensions.count_of("\"x\" info: game exit"), 1);
}

#[test]
fn analysis_is_repeatable() {
    let text = "skipped extension \"a\"\n\
                intercepted gw2 assertion fail \"b\"\n\
                intercepted unhandled hardware exception \"c\"\n\
                RVA\nh\nh\n0 1 2 x.dll\n0 1 2 y.dll\n";
    let first = analyze(text);
    let second = analyze(text);
    assert_eq!(first, second);
    let mut a = names(&first.culprits);
    let mut b = names(&second.culprits);
    a.sort();
    b.sort();
    assert_eq!(a, b);
}

#[test]
fn marker_precedence_first_match_wins() {
    let texts = MarkerTexts::new();
    let all = "info: game exit RVA ignoring hardware exception skipped extension \
               intercepted gw2 assertion fail intercepted unhandled hardware exception";
    assert_eq!(texts.classify(&chars(all), true), Marker::HardwareException);
    let no_crash = "info: game exit RVA ignoring hardware exception skipped extension \
                    intercepted gw2 assertion fail";
    assert_eq!(texts.classify(&chars(no_crash), true), Marker::AssertionFail);
    assert_eq!(
        texts.classify(&chars("info: game exit RVA ignoring hardware exception skipped extension"), true),
        Marker::SkippedExtension
    );
    assert_eq!(
        texts.classify(&chars("info: game exit RVA ignoring hardware exception"), true),
        Marker::IgnoredException
    );
    assert_eq!(texts.classify(&chars("info: game exit RVA"), true), Marker::StackTrace);
    assert_eq!(texts.classify(&chars("info: game exit RVA"), false), Marker::GameExit);
    assert_eq!(texts.classify(&chars("RVA"), false), Marker::Unmarked);
    assert_eq!(texts.classify(&chars("rva"), true), Marker::Unmarked);
    assert_eq!(texts.classify(&chars(""), true), Marker::Unmarked);
    assert_eq!(texts.classify(&chars("Info: Game Exit"), true), Marker::Unmarked);
}

#[test]
fn scan_stops_at_stack_marker() {
    let state = scan_markers(&lines(&[
        "intercepted unhandled hardware exception \"first\"",
        "skipped extension \"before\"",
        "xx RVA xx",
        "skipped extension \"after\"",
        "intercepted unhandled hardware exception \"second\"",
        "info: game exit",
    ]));
    assert!(state.found_exception_line);
    assert!(!state.game_exit);
    assert_eq!(state.stack_trace_marker, Some(2));
    assert_eq!(state.stack_region_start(6), 4);
    assert_eq!(state.crash_message, Some("\"first\"".to_string()));
    assert_eq!(entries(&state.skipped_counts), vec![("\"before\"".to_string(), 1)]);
}

#[test]
fn last_crash_line_before_the_trace_gives_the_message() {
    let state = scan_markers(&lines(&[
        "intercepted unhandled hardware exception \"first\"",
        "intercepted unhandled hardware exception at \"second\" end",
    ]));
    assert_eq!(state.crash_message, Some("\"second\" end".to_string()));
}

#[test]
fn truncated_stack_trace_gives_no_culprits() {
    let text = ["intercepted unhandled hardware exception \"x\"", "RVA"];
    let state = scan_markers(&lines(&text));
    assert_eq!(state.stack_trace_marker, Some(1));
    assert_eq!(state.stack_region_start(2), 2);
    let report = analyze_lines(&lines(&text));
    assert!(report.culprits.is_empty());
    assert_eq!(report.crash_message, Some("\"x\"".to_string()));

    let report = analyze("intercepted unhandled hardware exception \"x\"\nRVA\nheader\n");
    assert!(report.culprits.is_empty());
    let report = analyze("intercepted unhandled hardware exception \"x\"\nRVA\nh\nh\n");
    assert!(report.culprits.is_empty());
}

#[test]
fn marker_line_without_quote_is_counted_as_malformed() {
    let state = scan_markers(&lines(&[
        "intercepted unhandled hardware exception without message",
        "intercepted gw2 assertion fail no message",
        "skipped extension no message info: game exit",
        "skipped extension \"ok\"",
        "RVA",
    ]));
    assert_eq!(state.malformed_marker_lines, 3);
    assert!(!state.found_exception_line);
    assert!(!state.game_exit);
    assert_eq!(state.crash_message, None);
    assert_eq!(state.stack_trace_marker, None);
    assert!(state.assertion_counts.is_empty());
    assert_eq!(entries(&state.skipped_counts), vec![("\"ok\"".to_string(), 1)]);
}

#[test]
fn message_runs_from_first_quote_to_end_of_line() {
    assert_eq!(quoted_message(&chars("a \"b\" c \"d\"")), Some("\"b\" c \"d\"".to_string()));
    assert_eq!(quoted_message(&chars("\"")), Some("\"".to_string()));
    assert_eq!(quoted_message(&chars("no quote")), None);
    assert_eq!(quoted_message(&chars("")), None);
}

#[test]
fn assertion_fails_are_counted_by_message_in_order() {
    let report = analyze(
        "intercepted gw2 assertion fail \"b\"\n\
         intercepted gw2 assertion fail \"a\"\n\
         intercepted gw2 assertion fail \"b\"\n\
         intercepted gw2 assertion fail \"b\"\n\
         skipped extension \"b\"\n",
    );
    assert_eq!(
        entries(&report.assertion_fails),
        vec![("\"b\"".to_string(), 3), ("\"a\"".to_string(), 1)]
    );
    assert_eq!(report.assertion_fails.count_of("\"a\""), 1);
    assert_eq!(report.assertion_fails.count_of("\"c\""), 0);
    assert_eq!(entries(&report.skipped_extensions), vec![("\"b\"".to_string(), 1)]);
}

#[test]
fn observe_steps_through_the_modes() {
    let texts = MarkerTexts::new();
    let mut state = ScanState::new();
    let mode = state.observe(&texts, ScanMode::Scanning, 0, "ignoring hardware exception");
    assert_eq!(mode, ScanMode::SkipNext);
    let mode = state.observe(&texts, mode, 1, "info: game exit");
    assert_eq!(mode, ScanMode::Scanning);
    assert!(!state.game_exit);
    let mode = state.observe(&texts, mode, 2, "intercepted unhandled hardware exception \"m\"");
    assert_eq!(mode, ScanMode::Scanning);
    let mode = state.observe(&texts, mode, 3, "RVA");
    assert_eq!(mode, ScanMode::Done);
    assert_eq!(state.stack_trace_marker, Some(3));
    let mode = state.observe(&texts, mode, 4, "info: game exit");
    assert_eq!(mode, ScanMode::Done);
    assert!(!state.game_exit);
    assert_eq!(state.stack_region_start(10), 5);
    assert_eq!(state.stack_region_start(5), 5);
    assert_eq!(state.stack_region_start(4), 4);
}

#[test]
fn sole_game_module_hints_at_game_crash() {
    let report = analyze(
        "intercepted unhandled hardware exception \"x\"\nRVA\nh\nh\n0 1 2 Gw2-64@0x1234\n0 1 2 ntdll.dll\n",
    );
    assert_eq!(names(&report.culprits), vec!["gw2-64".to_string()]);
    assert_eq!(report.known_cause_hint, Some(KnownCause::GameCrash));
}

#[test]
fn game_module_among_others_gives_no_hint() {
    let report = analyze(
        "intercepted unhandled hardware exception \"x\"\nRVA\nh\nh\n0 1 2 gw2-64\n0 1 2 arcdps.dll\n",
    );
    assert_eq!(report.culprits.len(), 2);
    assert_eq!(report.known_cause_hint, None);
}

#[test]
fn smooth_motion_module_hints_at_nvidia() {
    let report = analyze(
        "intercepted unhandled hardware exception \"x\"\nRVA\nh\nh\n0 1 2 gw2-64\n0 1 2 NvPresent64\n",
    );
    assert_eq!(report.known_cause_hint, Some(KnownCause::NvidiaSmoothMotion));
    let report = analyze(
        "intercepted unhandled hardware exception \"x\"\nRVA\nh\nh\n0 1 2 nvpresent64@abc\n",
    );
    assert_eq!(names(&report.culprits), vec!["nvpresent64".to_string()]);
    assert_eq!(report.known_cause_hint, Some(KnownCause::NvidiaSmoothMotion));
}

#[test]
fn known_cause_of_given_sets() {
    let system = SystemModules::new();
    let mut set = CulpritSet::new();
    assert_eq!(known_cause(&set), None);
    set.consider(&system, "gw2-64".to_string());
    assert_eq!(known_cause(&set), Some(KnownCause::GameCrash));
    set.consider(&system, "gw2-64".to_string());
    assert_eq!(set.len(), 1);
    set.consider(&system, "kernel32.dll".to_string());
    assert_eq!(set.len(), 1);
    set.consider(&system, "nvpresent64".to_string());
    assert_eq!(known_cause(&set), Some(KnownCause::NvidiaSmoothMotion));
    assert_eq!(names(&set), vec!["gw2-64".to_string(), "nvpresent64".to_string()]);
}

#[test]
fn build_report_from_parts() {
    let system = SystemModules::new();
    let mut state = ScanState::new();
    state.game_exit = true;
    let mut culprits = CulpritSet::new();
    culprits.consider(&system, "x.dll".to_string());
    let report = build_report(state.clone(), culprits.clone());
    assert_eq!(report, CrashReport::exit_only());

    state.found_exception_line = true;
    state.crash_message = Some("\"m\"".to_string());
    state.skipped_counts.record("\"s\"".to_string());
    let report = build_report(state, culprits);
    assert!(!report.game_exited_unknown_cause);
    assert_eq!(report.crash_message, Some("\"m\"".to_string()));
    assert_eq!(report.skipped_extensions.count_of("\"s\""), 1);
    assert_eq!(names(&report.culprits), vec!["x.dll".to_string()]);
    assert_eq!(report.known_cause_hint, None);
}

#[test]
fn extract_culprits_from_a_start_index() {
    let text = lines(&["0 1 2 a.dll", "0 1 2 b.dll", "0 1 2 c.dll"]);
    assert_eq!(names(&extract_culprits(&text, 1)), vec!["b.dll".to_string(), "c.dll".to_string()]);
    assert_eq!(extract_culprits(&text, 0).len(), 3);
    assert!(extract_culprits(&text, 3).is_empty());
    assert!(extract_culprits(&text, 4).is_empty());
    assert!(extract_culprits(&text, usize::MAX).is_empty());
}

#[test]
fn bytes_that_are_not_utf8_are_refused() {
    assert_eq!(analyze_bytes(&[0x66, 0x6f, 0xff, 0x6f]), Err(AnalysisError::NotUtf8));
    assert_eq!(analyze_bytes(&[0xc3]), Err(AnalysisError::NotUtf8));
    assert_eq!(analyze_bytes(&[0xed, 0xa0, 0x80]), Err(AnalysisError::NotUtf8));
}

#[test]
fn bytes_that_are_utf8_are_analysed_as_text() {
    let text = "intercepted unhandled hardware exception \"ü\"\r\nRVA\r\nh\r\nh\r\n0 1 2 Ärger.dll\r\n";
    let report = analyze_bytes(text.as_bytes()).unwrap();
    assert_eq!(report, analyze(text));
    assert_eq!(report.crash_message, Some("\"ü\"".to_string()));
    assert_eq!(names(&report.culprits), vec!["ärger.dll".to_string()]);
    assert_eq!(analyze_bytes(b""), Ok(analyze("")));
}

#[test]
fn tally_counts_and_keeps_first_seen_order() {
    let mut tally = Tally::new();
    assert!(tally.is_empty());
    assert_eq!(tally.count_of("a"), 0);
    tally.record("a".to_string());
    tally.record("b".to_string());
    tally.record("a".to_string());
    assert_eq!(tally.len(), 2);
    assert_eq!(entries(&tally), vec![("a".to_string(), 2), ("b".to_string(), 1)]);
    assert_eq!(tally.position(&"b".to_string()), 1);
    assert_eq!(tally.position(&"c".to_string()), 2);
    assert_eq!(tally.count_of("b"), 1);
    assert_eq!(tally.count_of(""), 0);
}
