//! The process-wide pipeline slot: a one-time-initialization guard.
//!
//! The constructed pipeline becomes global state exactly once. A second
//! install attempt fails with `AlreadyInitializedError` and leaves the
//! first pipeline in place; it is never silently replaced.

use vstd::prelude::*;
use crate::pipeline::{LogRecord, Pipeline};

verus! {

/// A pipeline was already installed in this slot.
#[derive(Clone, Copy, Debug, PartialEq, Eq, Structural)]
pub struct AlreadyInitializedError;

/// Holds the process-wide pipeline: write-once, then read for the rest of
/// the process lifetime.
pub struct PipelineSlot {
    installed: Option<Pipeline>,
}

impl PipelineSlot {
    /// The pipeline this slot holds, if one was installed.
    pub closed spec fn installed_pipeline(self) -> Option<Pipeline> {
        self.installed
    }

    /// An empty slot, holding no pipeline.
    pub fn empty() -> (r: Self)
        ensures
            r.installed_pipeline() is None,
    {
        PipelineSlot { installed: None }
    }

    /// Whether a pipeline was installed.
    pub fn is_installed(&self) -> (r: bool)
        ensures
            r == (self.installed_pipeline() is Some),
    {
        self.installed.is_some()
    }

    /// Installs a pipeline. Succeeds exactly once: a second attempt fails
    /// with `AlreadyInitializedError` and leaves the slot unchanged.
    pub fn install(&mut self, p: Pipeline) -> (r: Result<(), AlreadyInitializedError>)
        ensures
            match r {
                Ok(()) => old(self).installed_pipeline() is None
                    && final(self).installed_pipeline() == Some(p),
                Err(AlreadyInitializedError) => old(self).installed_pipeline() is Some
                    && *final(self) == *old(self),
            },
    {
        match self.installed {
            Some(_) => Err(AlreadyInitializedError),
            None => {
                self.installed = Some(p);
                Ok(())
            },
        }
    }

    /// Submits one record to the installed pipeline; with no pipeline
    /// installed the record is dropped.
    pub fn submit(&mut self, rec: LogRecord)
        ensures
            match old(self).installed_pipeline() {
                None => *final(self) == *old(self),
                Some(p) => final(self).installed_pipeline() matches Some(q)
                    && q.scope_filter == p.scope_filter
                    && q.severity_filter == p.severity_filter
                    && q.sink.emitted@ == if p.accepts(rec) {
                        p.sink.emitted@.push(rec)
                    } else {
                        p.sink.emitted@
                    },
            },
    {
        let mut taken: Option<Pipeline> = None;
        core::mem::swap(&mut self.installed, &mut taken);
        match taken {
            Some(mut p) => {
                p.submit(rec);
                self.installed = Some(p);
            },
            None => {},
        }
    }

    /// The records the installed pipeline's sink has consumed, if a
    /// pipeline was installed.
    pub fn emitted_records(&self) -> (r: Option<&Vec<LogRecord>>)
        ensures
            match self.installed_pipeline() {
                Some(p) => r matches Some(v) && v@ == p.sink.emitted@,
                None => r is None,
            },
    {
        match &self.installed {
            Some(p) => Some(&p.sink.emitted),
            None => None,
        }
    }
}

} // verus!
