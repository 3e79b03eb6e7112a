//! Severity levels for the logging pipeline.
//!
//! A `LogLevel` is parsed from a string field of the merged logging
//! configuration; an unrecognized name is a fatal build-time error, so parsing
//! reports exactly which raw input failed.

use vstd::prelude::*;
use crate::strutil::str_eq;

verus! {

/// Severity ordering: `Trace < Debug < Info < Warn < Error`.
#[derive(Clone, Copy, PartialEq, Eq, Structural, Debug)]
pub enum LogLevel {
    Trace,
    Debug,
    Info,
    Warn,
    Error,
}

/// Numeric position of a level in the severity ordering.
pub open spec fn level_rank(l: LogLevel) -> nat {
    match l {
        LogLevel::Trace => 0,
        LogLevel::Debug => 1,
        LogLevel::Info => 2,
        LogLevel::Warn => 3,
        LogLevel::Error => 4,
    }
}

/// The level denoted by a severity name, if the name is recognized.
/// Recognized names are the five lowercase level names.
pub open spec fn parsed_level(s: Seq<char>) -> Option<LogLevel> {
    if s == "trace"@ {
        Some(LogLevel::Trace)
    } else if s == "debug"@ {
        Some(LogLevel::Debug)
    } else if s == "info"@ {
        Some(LogLevel::Info)
    } else if s == "warn"@ {
        Some(LogLevel::Warn)
    } else if s == "error"@ {
        Some(LogLevel::Error)
    } else {
        None
    }
}

/// An unrecognized severity name; `raw` is the input that failed to parse.
#[derive(Debug, PartialEq, Eq)]
pub struct LevelParseError {
    pub raw: String,
}

/// Parses a severity name into a `LogLevel`.
///
/// Succeeds exactly on the five recognized names; on any other input it
/// fails and reports the raw input unchanged.
pub fn parse_level(s: &str) -> (r: Result<LogLevel, LevelParseError>)
    ensures
        match r {
            Ok(l) => parsed_level(s@) == Some(l),
            Err(e) => parsed_level(s@) is None && e.raw@ == s@,
        },
{
    if str_eq(s, "trace") {
        Ok(LogLevel::Trace)
    } else if str_eq(s, "debug") {
        Ok(LogLevel::Debug)
    } else if str_eq(s, "info") {
        Ok(LogLevel::Info)
    } else if str_eq(s, "warn") {
        Ok(LogLevel::Warn)
    } else if str_eq(s, "error") {
        Ok(LogLevel::Error)
    } else {
        Err(LevelParseError { raw: s.to_owned() })
    }
}

/// True when a record at severity `lhs` meets the minimum severity `min`.
pub fn severity_at_least(lhs: LogLevel, min: LogLevel) -> (r: bool)
    ensures
        r == (level_rank(lhs) >= level_rank(min)),
{
    level_rank_u8(lhs) >= level_rank_u8(min)
}

/// Executable form of `level_rank`.
fn level_rank_u8(l: LogLevel) -> (r: u8)
    ensures
        r as nat == level_rank(l),
{
    match l {
        LogLevel::Trace => 0,
        LogLevel::Debug => 1,
        LogLevel::Info => 2,
        LogLevel::Warn => 3,
        LogLevel::Error => 4,
    }
}

} // verus!
