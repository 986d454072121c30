use serde_yaml::Value;
use tentacle::config::env::{
    load as load_env, metrics_socket_path, pid_dir_from_env, service_name_from_env, Environment,
};
use tentacle::config::yml::{self, RawEntry, TargetRaw};
use tentacle::config::{self, LoadError, Target, TargetsFile};

fn target_with_weight(weight: Option<u32>) -> Target {
    Target {
        weight,
        ..Target::from("localhost:8080".to_string())
    }
}

fn environment(vars: &[(&str, &str)]) -> Environment {
    Environment {
        vars: vars
            .iter()
            .map(|(k, v)| (k.to_string(), v.to_string()))
            .collect(),
    }
}

/// Reads a weight and a CA from a mapping; anything else has no fields.
fn fields(value: Value) -> Option<TargetRaw> {
    value.as_mapping()?;
    Some(TargetRaw {
        weight: value.get("weight").cloned(),
        ca: value.get("ca").and_then(Value::as_str).map(String::from),
        cert: None,
        key: None,
    })
}

fn content(text: &str) -> TargetsFile {
    TargetsFile::Content("/t.yml".to_string(), text.to_string())
}

fn addrs(targets: &[Target]) -> Vec<&str> {
    targets.iter().map(|t| t.addr.as_str()).collect()
}

#[test]
fn weight_in_range_accepts_none() {
    assert!(target_with_weight(None).weight_in_range());
}

#[test]
fn weight_in_range_accepts_bounds() {
    assert!(target_with_weight(Some(1)).weight_in_range());
    assert!(target_with_weight(Some(Target::MAX_WEIGHT)).weight_in_range());
}

#[test]
fn weight_in_range_rejects_zero() {
    assert!(!target_with_weight(Some(0)).weight_in_range());
}

#[test]
fn weight_in_range_rejects_above_max() {
    assert!(!target_with_weight(Some(Target::MAX_WEIGHT + 1)).weight_in_range());
}

#[test]
fn parse_weight_absent_is_none() {
    assert_eq!(yml::parse_weight("t", None), None);
}

#[test]
fn parse_weight_in_range() {
    assert_eq!(yml::parse_weight("t", Some(Value::from(5i64))), Some(5));
}

#[test]
fn parse_weight_zero_is_none() {
    assert_eq!(yml::parse_weight("t", Some(Value::from(0i64))), None);
}

#[test]
fn parse_weight_negative_is_none() {
    assert_eq!(yml::parse_weight("t", Some(Value::from(-5i64))), None);
}

#[test]
fn parse_weight_above_max_clamps() {
    assert_eq!(
        yml::parse_weight("t", Some(Value::from(999i64))),
        Some(Target::MAX_WEIGHT)
    );
}

#[test]
fn parse_weight_at_max_is_unclamped() {
    assert_eq!(
        yml::parse_weight("t", Some(Value::from(Target::MAX_WEIGHT as i64))),
        Some(Target::MAX_WEIGHT)
    );
}

#[test]
fn parse_weight_non_numeric_is_none() {
    assert_eq!(yml::parse_weight("t", Some(Value::from("abc"))), None);
}

#[test]
fn parse_weight_float_is_none() {
    assert_eq!(yml::parse_weight("t", Some(Value::from(1.5f64))), None);
}

#[test]
fn clamp_weight_by_integer() {
    assert_eq!(yml::clamp_weight(None), None);
    assert_eq!(yml::clamp_weight(Some(i64::MIN)), None);
    assert_eq!(yml::clamp_weight(Some(1)), Some(1));
    assert_eq!(yml::clamp_weight(Some(i64::MAX)), Some(100));
}

#[test]
fn plain_target_has_only_an_address() {
    let t = Target::from("a:1".to_string());
    assert_eq!(t.addr, "a:1");
    assert_eq!(t.weight, None);
    assert!(t.ca.is_none() && t.cert.is_none() && t.key.is_none());
    assert!(t.tls_pair_is_valid());
}

#[test]
fn tls_pair_needs_both_or_neither() {
    let mut t = Target::from("a:1".to_string());
    t.cert = Some("c".to_string());
    assert!(!t.tls_pair_is_valid());
    t.key = Some("k".to_string());
    assert!(t.tls_pair_is_valid());
    t.cert = None;
    assert!(!t.tls_pair_is_valid());
}

#[test]
fn service_name_follows_priority() {
    assert_eq!(service_name_from_env(&environment(&[])), None);
    assert_eq!(
        service_name_from_env(&environment(&[("NAME", "n"), ("SERVICE", "s")])),
        Some("s".to_string())
    );
    assert_eq!(
        service_name_from_env(&environment(&[
            ("SERVICE_NAME", "third"),
            ("NAUTROUDS_SERVICE_ID", "second"),
            ("NAUTROUDS_SERVICE_NAME", "first"),
        ])),
        Some("first".to_string())
    );
}

#[test]
fn pid_dir_is_read() {
    assert_eq!(
        pid_dir_from_env(&environment(&[("NAUTROUDS_PID_DIR", "/run")])),
        Some("/run".to_string())
    );
    assert_eq!(pid_dir_from_env(&environment(&[])), None);
}

#[test]
fn env_defaults() {
    let cfg = load_env(&environment(&[("NAUTROUDS_SERVICE_NAME", "myapp")])).unwrap();
    assert_eq!(cfg.service_name, "myapp");
    assert_eq!(cfg.base_dir, "/var/run/nautrouds/services");
    assert_eq!(cfg.max_connections, 1024);
    assert_eq!(cfg.metrics_interval_secs, 15);
    assert!(cfg.targets.is_empty());
}

#[test]
fn env_values() {
    let cfg = load_env(&environment(&[
        ("NAUTROUDS_SERVICE_NAME", "myapp"),
        ("NAUTROUDS_SERVICES_DIR", "/srv"),
        ("NAUTROUDS_MAX_CONNS", "+7"),
        ("NAUTROUDS_METRICS_INTERVAL_SECS", "0060"),
        ("NAUTROUDS_TARGET_ADDR", " a:1, ,b:2,a:1 ,\u{3000}c:3\n,,b:2"),
        ("ADDR", "z:9"),
    ]))
    .unwrap();
    assert_eq!(cfg.base_dir, "/srv");
    assert_eq!(cfg.max_connections, 7);
    assert_eq!(cfg.metrics_interval_secs, 60);
    assert_eq!(addrs(&cfg.targets), vec!["a:1", "b:2", "c:3"]);
}

#[test]
fn env_unreadable_numbers_fall_back() {
    for bad in ["", " 5", "5 ", "-1", "1_000", "0x10", "+", "18446744073709551616"] {
        let cfg = load_env(&environment(&[
            ("NAME", "n"),
            ("NAUTROUDS_MAX_CONNS", bad),
            ("NAUTROUDS_METRICS_INTERVAL_SECS", bad),
        ]))
        .unwrap();
        assert_eq!(cfg.max_connections, 1024, "{bad:?}");
        assert_eq!(cfg.metrics_interval_secs, 15, "{bad:?}");
    }
    let cfg = load_env(&environment(&[
        ("NAME", "n"),
        ("NAUTROUDS_METRICS_INTERVAL_SECS", "18446744073709551615"),
    ]))
    .unwrap();
    assert_eq!(cfg.metrics_interval_secs, u64::MAX);
}

#[test]
fn metrics_socket_choices() {
    assert_eq!(metrics_socket_path("/b", Some("-".to_string())), None);
    assert_eq!(
        metrics_socket_path("/b", Some("m.sock".to_string())),
        Some("/b/m.sock".to_string())
    );
    assert_eq!(
        metrics_socket_path("/b", Some(String::new())),
        Some("/b/metrics.sock".to_string())
    );
    assert_eq!(
        metrics_socket_path("/b/", None),
        Some("/b/metrics.sock".to_string())
    );
    assert_eq!(
        metrics_socket_path("/b", Some("/abs".to_string())),
        Some("/abs".to_string())
    );
}

#[test]
fn missing_service_name_is_an_error() {
    let e = config::load(
        &environment(&[("NAUTROUDS_TARGET_ADDR", "a:1")]),
        TargetsFile::Unreadable("/t.yml".to_string(), "denied".to_string()),
        fields,
    )
    .unwrap_err();
    assert!(matches!(e, LoadError::MissingServiceName));
    assert_eq!(e.message(), "NAUTROUDS_SERVICE_NAME is required");
}

#[test]
fn no_targets_is_an_error() {
    let env = environment(&[("NAME", "n"), ("TARGET", " , ,")]);
    for file in [TargetsFile::Absent, content("- a")] {
        let e = config::load(&env, file, fields).unwrap_err();
        assert!(matches!(e, LoadError::NoTargets));
        assert_eq!(
            e.message(),
            "NAUTROUDS_TARGET_ADDR must contain at least one address"
        );
    }
    let env = environment(&[("NAME", "n"), ("TARGET", "a:1")]);
    let e = config::load(&env, content("{}"), fields).unwrap_err();
    assert!(matches!(e, LoadError::NoTargets));
}

#[test]
fn targets_file_problems_are_errors() {
    let env = environment(&[("NAME", "n"), ("TARGET", "a:1")]);
    let unreadable = TargetsFile::Unreadable("/t.yml".to_string(), "denied".to_string());
    let e = config::load(&env, unreadable, fields).unwrap_err();
    assert_eq!(e.message(), "failed to read targets file: /t.yml: denied");
    let e = config::load(&env, content("a: ["), fields).unwrap_err();
    let cause = serde_yaml::from_str::<Value>("a: [").unwrap_err();
    assert_eq!(
        e.message(),
        format!("failed to parse targets file as YAML: /t.yml: {cause}")
    );
}

#[test]
fn targets_file_path_follows_priority() {
    assert_eq!(
        yml::targets_file_from_env(&environment(&[("TARGETS", "c"), ("TARGETS_FILE", "b")])),
        Some("b".to_string())
    );
    assert_eq!(yml::targets_file_from_env(&environment(&[])), None);
}

#[test]
fn file_entries_are_read_in_order() {
    let content = "localhost:8080: {}\n' api.internal:9090 ':\n  weight: 5\n7: {}\n'  ': {}\n";
    let entries = yml::read_entries("/t.yml", content).unwrap().unwrap();
    let found: Vec<&str> = entries.iter().map(|e| e.addr.as_str()).collect();
    assert_eq!(found, vec!["localhost:8080", "api.internal:9090"]);
    assert_eq!(entries[1].value.get("weight"), Some(&Value::from(5)));
}

#[test]
fn file_that_is_no_mapping_lists_nothing() {
    assert!(yml::read_entries("/t.yml", "- a\n- b\n").unwrap().is_none());
    assert!(yml::read_entries("/t.yml", "").unwrap().is_none());
}

#[test]
fn file_that_is_no_yaml_is_an_error() {
    let e = match yml::read_entries("/t.yml", "a: [") {
        Err(e) => e,
        Ok(_) => panic!("not a document"),
    };
    assert!(matches!(e, LoadError::InvalidTargetsFile(ref p, _) if p == "/t.yml"));
}

#[test]
fn file_replaces_the_targets_of_the_environment() {
    let env = environment(&[("NAME", "n"), ("TARGET", "a:1,b:2"), ("NAUTROUDS_MAX_CONNS", "3")]);
    let file = content("x:1: {weight: 500, ca: /ca.pem}\ny:2: 5\n' z:3 ': {weight: 7}\n");
    let cfg = config::load(&env, file, fields).unwrap();
    assert_eq!(addrs(&cfg.targets), vec!["x:1", "y:2", "z:3"]);
    assert_eq!(cfg.targets[0].weight, Some(100));
    assert_eq!(cfg.targets[0].ca.as_deref(), Some("/ca.pem"));
    assert_eq!(cfg.targets[1].weight, None);
    assert_eq!(cfg.targets[1].ca, None);
    assert_eq!(cfg.targets[2].weight, Some(7));
    assert_eq!(cfg.service_name, "n");
    assert_eq!(cfg.max_connections, 3);
    assert!(cfg.targets.iter().all(|t| t.weight_in_range()));
}

#[test]
fn entries_become_targets() {
    let cfg = load_env(&environment(&[("NAME", "n"), ("TARGET", "a:1")])).unwrap();
    let entries = vec![
        RawEntry {
            addr: "x:1".to_string(),
            raw: Some(TargetRaw {
                weight: Some(Value::from(0)),
                ca: None,
                cert: Some("/c.pem".to_string()),
                key: Some("/k.pem".to_string()),
            }),
        },
        RawEntry {
            addr: "y:2".to_string(),
            raw: None,
        },
    ];
    let cfg = yml::replace_targets(cfg, entries);
    assert_eq!(addrs(&cfg.targets), vec!["x:1", "y:2"]);
    assert_eq!(cfg.targets[0].weight, None);
    assert_eq!(cfg.targets[0].cert.as_deref(), Some("/c.pem"));
    assert_eq!(cfg.targets[0].key.as_deref(), Some("/k.pem"));
}

#[test]
fn keys_stand_for_addresses() {
    assert_eq!(yml::address_from(None), None);
    assert_eq!(yml::address_from(Some(" \t".to_string())), None);
    assert_eq!(
        yml::address_from(Some(" a:1\n".to_string())),
        Some("a:1".to_string())
    );
}

#[test]
fn file_without_targets_leaves_the_environment_in_force() {
    let env = environment(&[("NAME", "n"), ("TARGET", "a:1")]);
    let cfg = config::load(&env, content("just text"), fields).unwrap();
    assert_eq!(addrs(&cfg.targets), vec!["a:1"]);
    let cfg = config::load(&env, TargetsFile::Absent, fields).unwrap();
    assert_eq!(addrs(&cfg.targets), vec!["a:1"]);
}
