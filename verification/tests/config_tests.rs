use service_bootstrap::config_doc::{
    AccessError, ConfigDocument, ConfigTable, ConfigValue,
};
use service_bootstrap::resolve::{
    finish_resolve, plan_resolve, ConfigError, DocSource, LoadFailure,
};

fn doc(entries: Vec<(&str, ConfigValue)>) -> ConfigDocument {
    ConfigDocument {
        root: ConfigTable {
            entries: entries.into_iter().map(|(k, v)| (k.to_string(), v)).collect(),
        },
    }
}

fn table(entries: Vec<(&str, ConfigValue)>) -> ConfigValue {
    ConfigValue::Table(ConfigTable {
        entries: entries.into_iter().map(|(k, v)| (k.to_string(), v)).collect(),
    })
}

fn s(v: &str) -> ConfigValue {
    ConfigValue::Str(v.to_string())
}

fn merged(base: ConfigDocument, overlay: ConfigDocument) -> ConfigDocument {
    match finish_resolve(Ok(base), Ok(overlay)) {
        Ok(d) => d,
        Err(e) => panic!("resolve failed: {e:?}"),
    }
}

#[test]
fn merged_overlay_wins_on_shared_key() {
    let base = doc(vec![("level", s("warn"))]);
    let overlay = doc(vec![("level", s("info"))]);
    let m = merged(base, overlay);
    assert_eq!(m.get_string("level"), Ok("info".to_string()));
}

#[test]
fn merged_base_supplies_defaults() {
    let base = doc(vec![("port", ConfigValue::Int(8080)), ("level", s("warn"))]);
    let overlay = doc(vec![("level", s("info"))]);
    let m = merged(base, overlay);
    assert_eq!(m.get_int("port"), Ok(8080));
    assert_eq!(m.get_string("level"), Ok("info".to_string()));
}

#[test]
fn merged_nested_tables_merge_recursively() {
    let base = doc(vec![(
        "server",
        table(vec![("host", s("localhost")), ("port", ConfigValue::Int(1))]),
    )]);
    let overlay = doc(vec![("server", table(vec![("port", ConfigValue::Int(2))]))]);
    let m = merged(base, overlay);
    let server = m
        .root
        .entries
        .iter()
        .find(|(k, _)| k == "server")
        .map(|(_, v)| v)
        .expect("server table kept");
    match server {
        ConfigValue::Table(t) => {
            let port = t
                .entries
                .iter()
                .find(|(k, _)| k == "port")
                .map(|(_, v)| v)
                .expect("port kept");
            match port {
                ConfigValue::Int(i) => assert_eq!(*i, 2),
                _ => panic!("port is not an integer"),
            }
            let host = t
                .entries
                .iter()
                .find(|(k, _)| k == "host")
                .map(|(_, v)| v)
                .expect("host kept");
            match host {
                ConfigValue::Str(s) => assert_eq!(s, "localhost"),
                _ => panic!("host is not a string"),
            }
        }
        _ => panic!("server is not a table"),
    }
}

#[test]
fn merged_overlay_scalar_replaces_base_table() {
    let base = doc(vec![("x", table(vec![("a", ConfigValue::Int(1))]))]);
    let overlay = doc(vec![("x", ConfigValue::Int(5))]);
    let m = merged(base, overlay);
    assert_eq!(m.get_int("x"), Ok(5));
}

#[test]
fn resolve_unset_role_fails_before_any_file_access() {
    assert_eq!(
        plan_resolve("env/logging", None).map(|_| ()),
        Err(ConfigError::MissingRoleError)
    );
    assert_eq!(
        plan_resolve("env/logging", Some("")).map(|_| ()),
        Err(ConfigError::MissingRoleError)
    );
}

#[test]
fn resolve_plan_names_overlay_after_role() {
    let plan = plan_resolve("env/logging", Some("prod")).expect("plan");
    assert_eq!(plan.base_name, "env/logging");
    assert_eq!(plan.overlay_name, "env/logging-prod");
}

#[test]
fn resolve_missing_overlay_fails_even_with_valid_base() {
    let base = doc(vec![("level", s("warn"))]);
    let r = finish_resolve(Ok(base), Err(LoadFailure::FileMissing));
    assert_eq!(
        r.map(|_| ()),
        Err(ConfigError::ConfigLoadError {
            source: DocSource::Overlay,
            cause: LoadFailure::FileMissing,
        })
    );
}

#[test]
fn resolve_base_failure_is_reported_first() {
    let r = finish_resolve(
        Err(LoadFailure::Malformed),
        Err(LoadFailure::FileMissing),
    );
    assert_eq!(
        r.map(|_| ()),
        Err(ConfigError::ConfigLoadError {
            source: DocSource::Base,
            cause: LoadFailure::Malformed,
        })
    );
}

#[test]
fn resolve_unreadable_base_is_reported() {
    let overlay = doc(vec![("level", s("info"))]);
    let r = finish_resolve(Err(LoadFailure::FileUnreadable), Ok(overlay));
    assert_eq!(
        r.map(|_| ()),
        Err(ConfigError::ConfigLoadError {
            source: DocSource::Base,
            cause: LoadFailure::FileUnreadable,
        })
    );
}

#[test]
fn accessor_missing_key_is_key_not_found() {
    let base = doc(vec![("level", s("warn"))]);
    let overlay = doc(vec![]);
    let m = merged(base, overlay);
    assert_eq!(m.get_string("nope"), Err(AccessError::KeyNotFoundError));
    assert_eq!(m.get_int("nope"), Err(AccessError::KeyNotFoundError));
}

#[test]
fn accessor_wrong_type_is_type_mismatch() {
    let base = doc(vec![("level", s("warn")), ("port", ConfigValue::Int(80))]);
    let overlay = doc(vec![]);
    let m = merged(base, overlay);
    assert_eq!(m.get_int("level"), Err(AccessError::TypeMismatchError));
    assert_eq!(m.get_string("port"), Err(AccessError::TypeMismatchError));
    assert_eq!(m.get_int("port"), Ok(80));
}

#[test]
fn merged_keeps_bool_leaves() {
    let base = doc(vec![("debug", ConfigValue::Bool(true))]);
    let overlay = doc(vec![("debug", ConfigValue::Bool(false))]);
    let m = merged(base, overlay);
    assert_eq!(m.get_string("debug"), Err(AccessError::TypeMismatchError));
    assert_eq!(m.get_int("debug"), Err(AccessError::TypeMismatchError));
}
