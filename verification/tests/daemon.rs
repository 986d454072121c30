use std::sync::Arc;
use tentacle::config::{Config, Target};
use tentacle::daemon::{
    ends_daemon, expand_targets, metadata_for, metadatas_from, socket_id, socket_name, Daemon,
    RelayAction, Signal,
};
use tentacle::relay::metadata::{CommonInfo, Metadata};
use tentacle::tls::{Tls, TlsError};

fn metadata(target_addr: &str) -> Metadata {
    metadata_for(
        &Arc::new(CommonInfo {
            max_connections: 1,
            service_name: "svc".to_string(),
            metrics_interval_secs: 1,
        }),
        socket_id(target_addr),
        format!("/tmp/{target_addr}.sock"),
        target_addr.to_string(),
        Tls::default(),
    )
}

fn list(addrs: &[&str]) -> Vec<Metadata> {
    addrs.iter().map(|a| metadata(a)).collect()
}

fn described(actions: &[RelayAction]) -> Vec<String> {
    actions
        .iter()
        .map(|a| match a {
            RelayAction::Shutdown(n) => format!("stop #{n}"),
            RelayAction::Rotate(i, n) => format!("rotate {i} #{n}"),
            RelayAction::Spawn(i, n) => format!("spawn {i} #{n}"),
        })
        .collect()
}

fn target(addr: &str, weight: Option<u32>) -> Target {
    Target {
        weight,
        ..Target::from(addr.to_string())
    }
}

#[test]
fn socket_ids_are_file_names() {
    assert_eq!(socket_id("localhost:8080"), "localhost_8080");
    assert_eq!(socket_id("http://é:1"), "http___é_1");
    assert_eq!(socket_id(""), "");
}

#[test]
fn socket_names_carry_the_weight() {
    assert_eq!(socket_name(&target("a:1", None)), "a_1.sock");
    assert_eq!(socket_name(&target("a:1", Some(1))), "a_1.sock");
    assert_eq!(socket_name(&target("a:1", Some(2))), "a_1@2.sock");
    assert_eq!(socket_name(&target("a:1", Some(100))), "a_1@100.sock");
    assert_eq!(socket_name(&target("a:1", Some(101))), "a_1.sock");
    assert_eq!(socket_name(&target("a:1", Some(0))), "a_1.sock");
}

#[test]
fn targets_are_expanded() {
    let mut half = target("half:1", None);
    half.cert = Some("c".to_string());
    let (common, planned) = expand_targets(Config {
        service_name: "svc".to_string(),
        targets: vec![target("a:1", Some(5)), half, target("b:2", None)],
        base_dir: "/base".to_string(),
        max_connections: 9,
        metrics_interval_secs: 4,
    });
    assert_eq!(common.max_connections, 9);
    assert_eq!(common.service_name, "svc");
    assert_eq!(common.metrics_interval_secs, 4);
    let found: Vec<(&str, &str, &str)> = planned
        .iter()
        .map(|p| {
            (
                p.socket_id.as_str(),
                p.socket_path.as_str(),
                p.target.addr.as_str(),
            )
        })
        .collect();
    assert_eq!(
        found,
        vec![
            ("a_1", "/base/svc/a_1@5.sock", "a:1"),
            ("b_2", "/base/svc/b_2.sock", "b:2"),
        ]
    );
}

#[test]
fn metadata_holds_what_it_is_given() {
    let m = metadata("a:1");
    assert_eq!(m.socket_id, "a_1");
    assert_eq!(m.socket_path, "/tmp/a:1.sock");
    assert_eq!(m.target_addr, "a:1");
    assert_eq!(m.common.service_name, "svc");
    assert!(!m.target_tls.is_enabled());
}

#[test]
fn reload_follows_the_targets() {
    let mut daemon = Daemon::new();
    assert!(daemon.load_failure_is_fatal());
    assert_eq!(daemon.service_name(), None);
    let actions = daemon.apply(list(&["a:1", "b:2", "c:3"]));
    assert_eq!(
        described(&actions),
        vec!["spawn 0 #0", "spawn 1 #1", "spawn 2 #2"]
    );
    assert!(!daemon.load_failure_is_fatal());
    let actions = daemon.apply(list(&["c:3", "d:4", "a:1"]));
    assert_eq!(
        described(&actions),
        vec!["stop #1", "rotate 0 #2", "spawn 1 #3", "rotate 2 #0"]
    );
    assert_eq!(daemon.target(1).unwrap().target_addr, "d:4");
    assert!(daemon.target(9).is_none());
    assert_eq!(daemon.service_name(), Some("svc".to_string()));
    let actions = daemon.apply(Vec::new());
    assert_eq!(described(&actions), vec!["stop #2", "stop #3", "stop #0"]);
    let actions = daemon.apply(list(&["a:1"]));
    assert_eq!(described(&actions), vec!["spawn 0 #4"]);
}

#[test]
fn reload_handles_repeated_targets() {
    let mut daemon = Daemon::new();
    let actions = daemon.apply(list(&["a:1", "a:1"]));
    assert_eq!(described(&actions), vec!["spawn 0 #0", "rotate 1 #0"]);
    let actions = daemon.apply(Vec::new());
    assert_eq!(described(&actions), vec!["stop #0"]);
}

#[test]
fn removed_relays_are_waited_for() {
    let mut daemon = Daemon::new();
    assert!(daemon.may_end());
    daemon.apply(list(&["a:1", "b:2"]));
    daemon.apply(list(&["b:2"]));
    daemon.apply(list(&["a:1", "b:2"]));
    let mut ended = described(&daemon.on_end());
    ended.sort();
    assert_eq!(ended, vec!["stop #1", "stop #2"]);
    assert!(daemon.on_end().is_empty());
    for number in [0, 1, 2] {
        assert!(!daemon.may_end());
        assert_eq!(daemon.waits_for(), Some(number));
        daemon.on_drained(number);
    }
    assert_eq!(daemon.waits_for(), None);
    assert!(daemon.may_end());
}

#[test]
fn a_running_relay_is_waited_for() {
    let mut daemon = Daemon::new();
    daemon.apply(list(&["a:1"]));
    daemon.on_drained(0);
    daemon.on_drained(7);
    assert_eq!(daemon.waits_for(), Some(0));
    daemon.apply(Vec::new());
    assert_eq!(daemon.waits_for(), Some(0));
    daemon.on_drained(0);
    assert!(daemon.may_end());
}

#[test]
fn one_failed_target_fails_them_all() {
    let plan = || {
        expand_targets(Config {
            service_name: "svc".to_string(),
            targets: vec![target("a:1", Some(5)), target("b:2", Some(101))],
            base_dir: "/base".to_string(),
            max_connections: 9,
            metrics_interval_secs: 4,
        })
    };
    let ok = |addr: &str| Ok((addr.to_string(), Tls::default()));
    let (common, planned) = plan();
    let list = metadatas_from(&common, planned, vec![ok("a:1"), ok("b:2")]).unwrap();
    let found: Vec<(&str, &str, &str)> = list
        .iter()
        .map(|m| {
            (
                m.target_addr.as_str(),
                m.socket_id.as_str(),
                m.socket_path.as_str(),
            )
        })
        .collect();
    assert_eq!(
        found,
        vec![
            ("a:1", "a_1", "/base/svc/a_1@5.sock"),
            ("b:2", "b_2", "/base/svc/b_2.sock"),
        ]
    );
    assert!(list.iter().all(|m| Arc::ptr_eq(&m.common, &common)));

    let (common, planned) = plan();
    let failed = metadatas_from(&common, planned, vec![ok("a:1"), Err(TlsError::NoClientKey)]);
    assert!(matches!(failed, Err(TlsError::NoClientKey)));
    let (common, planned) = plan();
    let failed = metadatas_from(&common, planned, vec![Err(TlsError::NoClientKey)]);
    assert!(matches!(failed, Err(TlsError::NoClientKey)));
}

#[test]
fn signals() {
    assert!(ends_daemon(Signal::Interrupt));
    assert!(ends_daemon(Signal::Terminate));
    assert!(!ends_daemon(Signal::Hangup));
}
