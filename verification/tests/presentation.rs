use crashlog::error::AnalysisError;
use crashlog::render::{digit_char, push_decimal, render};
use crashlog::report::{analyze, CrashReport};
use crashlog::shell::{answer, decide_trigger, is_log_filename, prompt_text, Trigger};

fn decimal(n: usize) -> String {
    let mut out = String::new();
    push_decimal(&mut out, n);
    out
}

#[test]
fn exit_only_report_is_one_sentence() {
    assert_eq!(render(&CrashReport::exit_only()), "\nGame crashed on exit with an unknown cause.\n");
    assert_eq!(render(&analyze("info: game exit")), "\nGame crashed on exit with an unknown cause.\n");
}

#[test]
fn empty_report_shows_the_fixed_lines() {
    assert_eq!(render(&analyze("")), "\n\nLikely culprits:\n");
}

#[test]
fn full_report_shows_its_sections_in_order() {
    let report = analyze(
        "skipped extension \"ext\"\n\
         intercepted gw2 assertion fail \"one\"\n\
         skipped extension \"ext\"\n\
         intercepted gw2 assertion fail \"two\"\n\
         intercepted unhandled hardware exception \"0xC0000005\"\n\
         RVA\nh\nh\n\
         0 1 2 arcdps.dll\n\
         0 1 2 d3d11.dll@5\n",
    );
    assert_eq!(
        render(&report),
        "Skipped extensions:\n\
         - 2x \"ext\"\n\
         Intercepted GW2 assertion fails:\n\
         - 1x \"one\"\n\
         - 1x \"two\"\n\
         \n\
         crash happened at: \"0xC0000005\"\n\
         \n\
         Likely culprits:\n\
         arcdps.dll\n\
         d3d11.dll\n"
    );
}

#[test]
fn hints_close_the_report() {
    let game = analyze("intercepted unhandled hardware exception \"x\"\nRVA\nh\nh\n0 1 2 gw2-64\n");
    assert_eq!(
        render(&game),
        "\ncrash happened at: \"x\"\n\nLikely culprits:\ngw2-64\n\n\
         This is most likely a game crash, and there is nothing we can do about it.\n"
    );
    let nvidia = analyze("intercepted unhandled hardware exception \"x\"\nRVA\nh\nh\n0 1 2 nvpresent64\n");
    assert_eq!(
        render(&nvidia),
        "\ncrash happened at: \"x\"\n\nLikely culprits:\nnvpresent64\n\n\
         This is most likely caused by NVIDIA Smooth Motion, try disabling it.\n"
    );
}

#[test]
fn counts_are_shown_in_decimal() {
    let mut text = String::new();
    for _ in 0..12 {
        text.push_str("skipped extension \"e\"\n");
    }
    assert_eq!(render(&analyze(&text)), "Skipped extensions:\n- 12x \"e\"\n\n\nLikely culprits:\n");
    assert_eq!(decimal(0), "0");
    assert_eq!(decimal(7), "7");
    assert_eq!(decimal(10), "10");
    assert_eq!(decimal(1905), "1905");
    assert_eq!(decimal(usize::MAX), usize::MAX.to_string());
    assert_eq!(digit_char(0), '0');
    assert_eq!(digit_char(9), '9');
    let mut out = "n=".to_string();
    push_decimal(&mut out, 42);
    assert_eq!(out, "n=42");
}

#[test]
fn errors_have_their_sentences() {
    assert_eq!(AnalysisError::DownloadFailed.user_message(), "Failed to download file.");
    assert_eq!(AnalysisError::NotUtf8.user_message(), "Failed to read file.");
}

#[test]
fn answers_for_what_was_retrieved() {
    assert_eq!(answer(None), "Failed to download file.");
    assert_eq!(answer(Some(&[0xff, 0xfe])), "Failed to read file.");
    assert_eq!(answer(Some(b"info: game exit\n")), "\nGame crashed on exit with an unknown cause.\n");
    assert_eq!(answer(Some(b"")), "\n\nLikely culprits:\n");
}

#[test]
fn command_with_one_attachment_asks_for_analysis() {
    assert_eq!(decide_trigger("!analyze", 1, None), Trigger::AnalyzeOwn);
    assert_eq!(decide_trigger("!analyze", 1, Some(1)), Trigger::AnalyzeOwn);
    assert_eq!(decide_trigger("!analyze", 0, Some(1)), Trigger::AnalyzeReferenced);
    assert_eq!(decide_trigger("!analyze", 2, Some(1)), Trigger::AnalyzeReferenced);
}

#[test]
fn command_without_one_attachment_prompts() {
    assert_eq!(decide_trigger("!analyze", 0, None), Trigger::Prompt);
    assert_eq!(decide_trigger("!analyze", 2, None), Trigger::Prompt);
    assert_eq!(decide_trigger("!analyze", 0, Some(0)), Trigger::Prompt);
    assert_eq!(decide_trigger("!analyze", 3, Some(2)), Trigger::Prompt);
    assert_eq!(prompt_text(), "Please send an arcdps crashlog with your command.");
}

#[test]
fn other_text_is_no_command() {
    assert_eq!(decide_trigger("", 1, None), Trigger::Ignore);
    assert_eq!(decide_trigger("!analyze ", 1, None), Trigger::Ignore);
    assert_eq!(decide_trigger(" !analyze", 1, None), Trigger::Ignore);
    assert_eq!(decide_trigger("!Analyze", 1, Some(1)), Trigger::Ignore);
    assert_eq!(decide_trigger("!analyz", 0, None), Trigger::Ignore);
    assert_eq!(decide_trigger("hello", 0, Some(1)), Trigger::Ignore);
}

#[test]
fn log_files_end_in_txt_or_log() {
    assert!(is_log_filename("arcdps.cbtlogs.txt"));
    assert!(is_log_filename("crash.log"));
    assert!(is_log_filename(".txt"));
    assert!(!is_log_filename("crash.png"));
    assert!(!is_log_filename("crash.LOG"));
    assert!(!is_log_filename("crash.log.zip"));
    assert!(!is_log_filename("txt"));
    assert!(!is_log_filename(""));
}
