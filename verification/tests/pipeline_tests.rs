use service_bootstrap::config_doc::{ConfigDocument, ConfigTable, ConfigValue};
use service_bootstrap::config_doc::AccessError;
use service_bootstrap::install::{AlreadyInitializedError, PipelineSlot};
use service_bootstrap::level::{parse_level, severity_at_least, LogLevel};
use service_bootstrap::pipeline::{
    build_from_logging_config, LogRecord, LoggingConfigError, Pipeline, PipelineBuildError,
};
use service_bootstrap::resolve::finish_resolve;

fn record(severity: LogLevel, scope: &str) -> LogRecord {
    LogRecord { severity, scope: scope.to_string() }
}

#[test]
fn parse_level_recognizes_the_five_names() {
    assert_eq!(parse_level("trace"), Ok(LogLevel::Trace));
    assert_eq!(parse_level("debug"), Ok(LogLevel::Debug));
    assert_eq!(parse_level("info"), Ok(LogLevel::Info));
    assert_eq!(parse_level("warn"), Ok(LogLevel::Warn));
    assert_eq!(parse_level("error"), Ok(LogLevel::Error));
}

#[test]
fn parse_level_reports_the_raw_unrecognized_input() {
    let e = parse_level("verbose").expect_err("unrecognized name");
    assert_eq!(e.raw, "verbose");
}

#[test]
fn severity_ordering_is_trace_to_error() {
    assert!(severity_at_least(LogLevel::Error, LogLevel::Trace));
    assert!(severity_at_least(LogLevel::Info, LogLevel::Info));
    assert!(!severity_at_least(LogLevel::Debug, LogLevel::Info));
    assert!(!severity_at_least(LogLevel::Trace, LogLevel::Error));
}

#[test]
fn severity_filter_at_info_passes_warn_drops_debug() {
    let p = Pipeline::build("info", "service").expect("build");
    assert!(p.severity_filter.passes(&record(LogLevel::Warn, "service")));
    assert!(!p.severity_filter.passes(&record(LogLevel::Debug, "service")));
}

#[test]
fn build_fails_on_unrecognized_level() {
    match Pipeline::build("loud", "service") {
        Ok(_) => panic!("build accepted an unrecognized level"),
        Err(PipelineBuildError::LevelParse(e)) => assert_eq!(e.raw, "loud"),
    }
}

#[test]
fn matching_scope_reaches_sink_exactly_once() {
    let mut p = Pipeline::build("info", "service").expect("build");
    p.submit(record(LogLevel::Warn, "service"));
    assert_eq!(p.sink.emitted.len(), 1);
    assert_eq!(p.sink.emitted[0].severity, LogLevel::Warn);
    assert_eq!(p.sink.emitted[0].scope, "service");
}

#[test]
fn other_scope_never_reaches_sink() {
    let mut p = Pipeline::build("info", "service").expect("build");
    p.submit(record(LogLevel::Error, "other"));
    p.submit(record(LogLevel::Info, "other"));
    assert_eq!(p.sink.emitted.len(), 0);
}

#[test]
fn second_install_fails_and_keeps_the_first_pipeline() {
    let mut slot = PipelineSlot::empty();
    assert!(!slot.is_installed());
    let mut first = Pipeline::build("info", "service").expect("build");
    first.submit(record(LogLevel::Info, "service"));
    slot.install(first).expect("first install");
    assert!(slot.is_installed());

    let second = Pipeline::build("error", "service").expect("build");
    assert_eq!(slot.install(second), Err(AlreadyInitializedError));

    let emitted = slot.emitted_records().expect("still installed");
    assert_eq!(emitted.len(), 1);
    assert_eq!(emitted[0].severity, LogLevel::Info);
}

#[test]
fn submit_without_installed_pipeline_drops_the_record() {
    let mut slot = PipelineSlot::empty();
    slot.submit(record(LogLevel::Error, "service"));
    assert!(slot.emitted_records().is_none());
}

#[test]
fn pipeline_from_config_reads_the_level_key() {
    let doc = ConfigDocument {
        root: ConfigTable {
            entries: vec![("level".to_string(), ConfigValue::Str("warn".to_string()))],
        },
    };
    let p = build_from_logging_config(&doc, "service").expect("build");
    assert_eq!(p.severity_filter.min_level, LogLevel::Warn);
    assert_eq!(p.scope_filter.scope_tag, "service");
    assert!(p.sink.emitted.is_empty());
}

#[test]
fn pipeline_from_config_missing_level_key() {
    let doc = ConfigDocument { root: ConfigTable { entries: vec![] } };
    let r = build_from_logging_config(&doc, "service");
    assert_eq!(
        r.map(|_| ()),
        Err(LoggingConfigError::LevelKey(AccessError::KeyNotFoundError))
    );
}

#[test]
fn pipeline_from_config_mistyped_level_key() {
    let doc = ConfigDocument {
        root: ConfigTable {
            entries: vec![("level".to_string(), ConfigValue::Int(3))],
        },
    };
    let r = build_from_logging_config(&doc, "service");
    assert_eq!(
        r.map(|_| ()),
        Err(LoggingConfigError::LevelKey(AccessError::TypeMismatchError))
    );
}

#[test]
fn pipeline_from_config_unrecognized_level_value() {
    let doc = ConfigDocument {
        root: ConfigTable {
            entries: vec![("level".to_string(), ConfigValue::Str("silent".to_string()))],
        },
    };
    match build_from_logging_config(&doc, "service") {
        Err(LoggingConfigError::LevelParse(e)) => assert_eq!(e.raw, "silent"),
        _ => panic!("expected a level parse failure"),
    }
}

#[test]
fn end_to_end_merged_level_filters_records() {
    let base = ConfigDocument {
        root: ConfigTable {
            entries: vec![("level".to_string(), ConfigValue::Str("warn".to_string()))],
        },
    };
    let overlay = ConfigDocument {
        root: ConfigTable {
            entries: vec![("level".to_string(), ConfigValue::Str("info".to_string()))],
        },
    };
    let merged = finish_resolve(Ok(base), Ok(overlay)).expect("resolve");
    let level = merged.get_string("level").expect("level key");
    assert_eq!(level, "info");

    let pipeline = Pipeline::build(&level, "service").expect("build");
    let mut slot = PipelineSlot::empty();
    slot.install(pipeline).expect("install");

    slot.submit(record(LogLevel::Debug, "service"));
    slot.submit(record(LogLevel::Info, "service"));
    slot.submit(record(LogLevel::Info, "other"));

    let emitted = slot.emitted_records().expect("installed");
    assert_eq!(emitted.len(), 1);
    assert_eq!(emitted[0].severity, LogLevel::Info);
    assert_eq!(emitted[0].scope, "service");
}
