//! Service bootstrap core: layered configuration resolution and assembly of a
//! filtered structured-logging pipeline.
//!
//! The crate covers the two components a service constructs before its server
//! starts: a configuration resolver that merges a base document with an
//! environment-role overlay (overlay wins on every key path) and exposes typed
//! accessors, and a logging pipeline builder that parses a severity level and
//! composes a scope filter, a severity filter, and a sink stage, installed
//! process-wide exactly once.

pub mod config_doc;
pub mod install;
pub mod level;
pub mod pipeline;
pub mod resolve;
pub mod strutil;
