//! Summaries of arcdps crash logs: the message of the crash, how often each
//! warning recurs, and the modules that the stack trace names.

pub mod text;
pub mod lines;
pub mod tokens;
pub mod tally;
pub mod scan;
pub mod scan_laws;
pub mod culprits;
pub mod error;
pub mod report;
pub mod render;
pub mod shell;
