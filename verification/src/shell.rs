//! The decisions of the program around the analysis: which message asks for
//! an analysis, which attachment is a log, and what is answered.

use vstd::prelude::*;
use vstd::utf8::{decode_utf8, valid_utf8};
use crate::error::AnalysisError;
use crate::lines::lines_of;
use crate::render::{render, rendered};
use crate::report::{analysis_of, analyze_bytes};
use crate::text::{ends_with, has_suffix, matches_at, to_chars};

verus! {

/// What a message asks for.
#[derive(Debug, Clone, Copy, PartialEq, Eq, Structural)]
pub enum Trigger {
    /// The message is no command.
    Ignore,
    /// The attachment of the message itself is to be analysed.
    AnalyzeOwn,
    /// The attachment of the message that it replies to is to be analysed.
    AnalyzeReferenced,
    /// The sender is asked to send a log with the command.
    Prompt,
}

/// The command that asks for an analysis.
pub open spec fn command_text() -> Seq<char> {
    "!analyze"@
}

/// What a message asks for, by its text, the number of its attachments, and
/// the number of attachments of the message that it replies to, if any. The
/// command asks for an analysis where the message has exactly one
/// attachment, or else the message that it replies to has exactly one.
pub open spec fn trigger_of(content: Seq<char>, attachments: nat, referenced: Option<nat>) -> Trigger {
    if content != command_text() {
        Trigger::Ignore
    } else if attachments == 1 {
        Trigger::AnalyzeOwn
    } else if referenced == Some(1nat) {
        Trigger::AnalyzeReferenced
    } else {
        Trigger::Prompt
    }
}

/// A file of this name is taken for a log: the name ends in `.txt` or `.log`.
pub open spec fn is_log_name(name: Seq<char>) -> bool {
    has_suffix(name, ".txt"@) || has_suffix(name, ".log"@)
}

/// What is answered for an attachment: `bytes` is what was retrieved, or
/// `None` where nothing could be.
pub open spec fn answer_of(bytes: Option<Seq<u8>>) -> Seq<char> {
    match bytes {
        None => AnalysisError::DownloadFailed.message(),
        Some(content) => if valid_utf8(content) {
            rendered(analysis_of(lines_of(decode_utf8(content))))
        } else {
            AnalysisError::NotUtf8.message()
        },
    }
}

/// What a message asks for.
pub fn decide_trigger(content: &str, attachments: usize, referenced: Option<usize>) -> (trigger:
    Trigger)
    ensures
        trigger == trigger_of(
            content@,
            attachments as nat,
            match referenced {
                Some(n) => Some(n as nat),
                None => None,
            },
        ),
{
    let text = to_chars(content);
    let command = to_chars("!analyze");
    let is_command = text.len() == command.len() && matches_at(
        text.as_slice(),
        command.as_slice(),
        0,
    );
    proof {
        if text@.len() == command@.len() {
            assert(text@.subrange(0, text@.len() as int) =~= text@);
        }
    }
    if !is_command {
        Trigger::Ignore
    } else if attachments == 1 {
        Trigger::AnalyzeOwn
    } else {
        match referenced {
            Some(1) => Trigger::AnalyzeReferenced,
            _ => Trigger::Prompt,
        }
    }
}

/// Whether a file of this name is taken for a log.
pub fn is_log_filename(name: &str) -> (log: bool)
    ensures
        log == is_log_name(name@),
{
    let chars = to_chars(name);
    let txt = to_chars(".txt");
    let log = to_chars(".log");
    ends_with(chars.as_slice(), txt.as_slice()) || ends_with(chars.as_slice(), log.as_slice())
}

/// What the sender is asked where the command came without a log.
pub fn prompt_text() -> (text: &'static str)
    ensures
        text@ == "Please send an arcdps crashlog with your command."@,
{
    "Please send an arcdps crashlog with your command."
}

/// What is answered for an attachment: `bytes` is what was retrieved, or
/// `None` where nothing could be.
pub fn answer(bytes: Option<&[u8]>) -> (reply: String)
    ensures
        reply@ == answer_of(
            match bytes {
                Some(content) => Some(content@),
                None => None,
            },
        ),
{
    match bytes {
        None => AnalysisError::DownloadFailed.user_message().to_owned(),
        Some(content) => match analyze_bytes(content) {
            Ok(report) => render(&report),
            Err(error) => error.user_message().to_owned(),
        },
    }
}

} // verus!
