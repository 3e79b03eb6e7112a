//! The logging pipeline: a sink stage wrapped by a severity filter and a
//! source-scope filter, built once from the merged logging configuration.
//!
//! A record reaches the sink exactly when it passes both filters; the two
//! filters are pure predicates, so their order does not matter. The sink
//! stage models the opaque emission capability by the sequence of records
//! it has consumed.

use vstd::prelude::*;
use crate::config_doc::{AccessError, ConfigDocument, ValModel};
use crate::level::{LogLevel, LevelParseError, level_rank, parsed_level, parse_level, severity_at_least};
use crate::strutil::str_eq;

verus! {

/// One structured event record: a severity and the scope tag of the
/// component it originates from.
pub struct LogRecord {
    pub severity: LogLevel,
    pub scope: String,
}

/// Drops every record whose severity is strictly below a threshold.
pub struct SeverityFilterStage {
    pub min_level: LogLevel,
}

impl SeverityFilterStage {
    /// The records this stage passes downstream.
    pub open spec fn passes_spec(self, rec: LogRecord) -> bool {
        level_rank(rec.severity) >= level_rank(self.min_level)
    }

    /// Whether a record passes the severity filter.
    pub fn passes(&self, rec: &LogRecord) -> (r: bool)
        ensures
            r == self.passes_spec(*rec),
    {
        severity_at_least(rec.severity, self.min_level)
    }
}

/// Drops every record whose origin scope tag is not exactly the configured
/// one: an allow-list of a single scope.
pub struct ScopeFilterStage {
    pub scope_tag: String,
}

impl ScopeFilterStage {
    /// The records this stage passes downstream.
    pub open spec fn passes_spec(self, rec: LogRecord) -> bool {
        rec.scope@ == self.scope_tag@
    }

    /// Whether a record passes the scope filter.
    pub fn passes(&self, rec: &LogRecord) -> (r: bool)
        ensures
            r == self.passes_spec(*rec),
    {
        str_eq(rec.scope.as_str(), self.scope_tag.as_str())
    }
}

/// Terminal stage: consumes every record that survived the filters. The
/// emission capability itself is opaque; the stage records what it was
/// handed, in order.
pub struct SinkStage {
    pub emitted: Vec<LogRecord>,
}

impl SinkStage {
    /// Consumes one record.
    pub fn emit(&mut self, rec: LogRecord)
        ensures
            final(self).emitted@ == old(self).emitted@.push(rec),
    {
        self.emitted.push(rec);
    }
}

/// Building a pipeline failed: the configured severity name was not
/// recognized, a startup-abort condition.
#[derive(Debug, PartialEq, Eq)]
pub enum PipelineBuildError {
    LevelParse(LevelParseError),
}

/// The assembled pipeline: scope filter, then severity filter, then sink.
pub struct Pipeline {
    pub scope_filter: ScopeFilterStage,
    pub severity_filter: SeverityFilterStage,
    pub sink: SinkStage,
}

impl Pipeline {
    /// A record reaches the sink exactly when it passes both filters.
    pub open spec fn accepts(self, rec: LogRecord) -> bool {
        self.scope_filter.passes_spec(rec) && self.severity_filter.passes_spec(rec)
    }

    /// Builds the pipeline for a configured severity name and scope tag,
    /// with an empty sink. Fails exactly when the severity name is not
    /// recognized, reporting the raw input.
    pub fn build(level_string: &str, scope_tag: &str) -> (r: Result<Pipeline, PipelineBuildError>)
        ensures
            match r {
                Ok(p) => {
                    &&& parsed_level(level_string@) == Some(p.severity_filter.min_level)
                    &&& p.scope_filter.scope_tag@ == scope_tag@
                    &&& p.sink.emitted@ == Seq::<LogRecord>::empty()
                },
                Err(PipelineBuildError::LevelParse(e)) => parsed_level(level_string@) is None
                    && e.raw@ == level_string@,
            },
    {
        match parse_level(level_string) {
            Ok(min_level) => Ok(Pipeline {
                scope_filter: ScopeFilterStage { scope_tag: scope_tag.to_owned() },
                severity_filter: SeverityFilterStage { min_level },
                sink: SinkStage { emitted: Vec::new() },
            }),
            Err(e) => Err(PipelineBuildError::LevelParse(e)),
        }
    }

    /// Submits one record: it is handed to the sink exactly once when it
    /// passes both filters, and dropped otherwise. The configuration of the
    /// pipeline never changes.
    pub fn submit(&mut self, rec: LogRecord)
        ensures
            final(self).scope_filter == old(self).scope_filter,
            final(self).severity_filter == old(self).severity_filter,
            final(self).sink.emitted@ == if old(self).accepts(rec) {
                old(self).sink.emitted@.push(rec)
            } else {
                old(self).sink.emitted@
            },
    {
        if self.scope_filter.passes(&rec) && self.severity_filter.passes(&rec) {
            self.sink.emit(rec);
        }
    }
}

/// Why the pipeline could not be assembled from a merged logging
/// configuration: the `level` key was missing or mistyped, or its value was
/// not a recognized severity name.
#[derive(Debug, PartialEq, Eq)]
pub enum LoggingConfigError {
    LevelKey(AccessError),
    LevelParse(LevelParseError),
}

/// Builds the logging pipeline from a merged logging configuration: reads
/// the `level` key and composes the stages for it, with an empty sink.
pub fn build_from_logging_config(doc: &ConfigDocument, scope_tag: &str) -> (r: Result<
    Pipeline,
    LoggingConfigError,
>)
    ensures
        match r {
            Ok(p) => {
                &&& doc@.dom().contains("level"@)
                &&& doc@["level"@] matches ValModel::Str(lv)
                    && parsed_level(lv) == Some(p.severity_filter.min_level)
                &&& p.scope_filter.scope_tag@ == scope_tag@
                &&& p.sink.emitted@ == Seq::<LogRecord>::empty()
            },
            Err(LoggingConfigError::LevelKey(e)) => (e == AccessError::KeyNotFoundError
                && !doc@.dom().contains("level"@))
                || (e == AccessError::TypeMismatchError && doc@.dom().contains("level"@)
                    && !(doc@["level"@] is Str)),
            Err(LoggingConfigError::LevelParse(e)) => {
                &&& doc@.dom().contains("level"@)
                &&& doc@["level"@] matches ValModel::Str(lv) && parsed_level(lv) is None
                    && e.raw@ == lv
            },
        },
{
    match doc.get_string("level") {
        Ok(level_str) => match Pipeline::build(level_str.as_str(), scope_tag) {
            Ok(p) => Ok(p),
            Err(PipelineBuildError::LevelParse(e)) => Err(LoggingConfigError::LevelParse(e)),
        },
        Err(e) => Err(LoggingConfigError::LevelKey(e)),
    }
}

/// The scope filter and the severity filter commute: both are pure
/// predicates with no effect before the sink, so applying them in either
/// order admits exactly the same records.
pub proof fn lemma_filter_order_commutes(
    scope_filter: ScopeFilterStage,
    severity_filter: SeverityFilterStage,
    rec: LogRecord,
)
    ensures
        (scope_filter.passes_spec(rec) && severity_filter.passes_spec(rec))
            == (severity_filter.passes_spec(rec) && scope_filter.passes_spec(rec)),
{
}

} // verus!
