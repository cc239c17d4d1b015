//! What can keep a log from being analysed.

use vstd::prelude::*;

verus! {

/// Why no report could be made.
#[derive(Debug, Clone, Copy, PartialEq, Eq, Structural)]
pub enum AnalysisError {
    /// The file could not be retrieved.
    DownloadFailed,
    /// The file is not UTF-8 text.
    NotUtf8,
}

impl AnalysisError {
    /// What the user is told.
    pub open spec fn message(self) -> Seq<char> {
        match self {
            AnalysisError::DownloadFailed => "Failed to download file."@,
            AnalysisError::NotUtf8 => "Failed to read file."@,
        }
    }

    /// What the user is told.
    pub fn user_message(&self) -> (text: &'static str)
        ensures
            text@ == self.message(),
    {
        match self {
            AnalysisError::DownloadFailed => "Failed to download file.",
            AnalysisError::NotUtf8 => "Failed to read file.",
        }
    }
}

} // verus!
