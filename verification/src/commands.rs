//! What the command layer decides: how the outcome of a request is logged,
//! and at which level a frontend log line is written.

use vstd::prelude::*;
use crate::error::{error_message, AppError, ErrorView};
use crate::text::opt_text;

verus! {

/// A log level.
#[derive(Debug, PartialEq, Eq, Structural)]
pub enum LogLevel {
    Info,
    Warn,
    Error,
}

/// One log line about the outcome of a request.
#[derive(Debug)]
pub struct LogLine {
    pub level: LogLevel,
    /// `ok`, `rejected` or `failed`.
    pub event: &'static str,
    /// The rejection reason or the error text.
    pub detail: Option<String>,
}

/// The log line for an outcome: INFO `ok` on success, WARN `rejected` with
/// the reason for a validation error, ERROR `failed` with the error text for
/// every other error.
pub open spec fn outcome_line(error: Option<ErrorView>) -> (LogLevel, Seq<char>, Option<Seq<char>>) {
    match error {
        None => (LogLevel::Info, "ok"@, None),
        Some(ErrorView::Validation(m)) => (LogLevel::Warn, "rejected"@, Some(m)),
        Some(e) => (LogLevel::Error, "failed"@, Some(error_message(e))),
    }
}

/// The log line for the outcome of a request, as `outcome_line` says.
pub fn log_outcome<T>(result: &Result<T, AppError>) -> (l: LogLine)
    ensures
        match result {
            Ok(_) => (l.level, l.event@, opt_text(l.detail)) == outcome_line(None),
            Err(e) => (l.level, l.event@, opt_text(l.detail)) == outcome_line(Some(e@)),
        },
{
    match result {
        Ok(_) => LogLine { level: LogLevel::Info, event: "ok", detail: None },
        Err(AppError::Validation(msg)) => LogLine {
            level: LogLevel::Warn,
            event: "rejected",
            detail: Some(msg.clone()),
        },
        Err(e) => LogLine { level: LogLevel::Error, event: "failed", detail: Some(e.message()) },
    }
}

/// The level of a frontend log line: `error` and `warn` name their levels,
/// anything else is INFO.
pub open spec fn frontend_level(level: Seq<char>) -> LogLevel {
    if level == "error"@ {
        LogLevel::Error
    } else if level == "warn"@ {
        LogLevel::Warn
    } else {
        LogLevel::Info
    }
}

/// The level of a frontend log line, as `frontend_level` says.
pub fn frontend_log_level(level: &str) -> (l: LogLevel)
    ensures
        l == frontend_level(level@),
{
    let given = level.to_owned();
    if given == "error".to_owned() {
        LogLevel::Error
    } else if given == "warn".to_owned() {
        LogLevel::Warn
    } else {
        LogLevel::Info
    }
}

} // verus!
