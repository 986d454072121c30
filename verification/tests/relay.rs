use std::sync::Arc;
use std::time::Instant;
use tentacle::metrics::{MetricsManager, MetricsSnapshot};
use tentacle::relay::listener::{
    latency_us, report_latency, temp_path, AcceptEvent, Connection, SocketGuard, Stage,
};
use tentacle::relay::metadata::{CommonInfo, Metadata};
use tentacle::relay::{
    report_interval, AcceptStep, ListenerAction, Relay, RenameOutcome, ReportStep,
};
use tentacle::tls::Tls;

fn metadata_for(target_addr: &str) -> Metadata {
    Metadata {
        common: Arc::new(CommonInfo {
            max_connections: 1,
            service_name: "test".to_string(),
            metrics_interval_secs: 1,
        }),
        socket_id: target_addr.replace([':', '/'], "_"),
        socket_path: format!("/tmp/{target_addr}.sock"),
        target_addr: target_addr.to_string(),
        target_tls: Tls::default(),
    }
}

fn metadata(max_connections: usize) -> Metadata {
    Metadata {
        common: Arc::new(CommonInfo {
            max_connections,
            service_name: "test".to_string(),
            metrics_interval_secs: 1,
        }),
        socket_id: "test".to_string(),
        socket_path: "/tmp/test.sock".to_string(),
        target_addr: "127.0.0.1:1".to_string(),
        target_tls: Tls::default(),
    }
}

fn metadata_with_path(max_connections: usize, socket_path: &str) -> Metadata {
    Metadata {
        socket_path: socket_path.to_string(),
        ..metadata(max_connections)
    }
}

#[test]
fn returns_targets_removed_from_new() {
    let old = vec![metadata_for("a:1"), metadata_for("b:2"), metadata_for("c:3")];
    let new = vec![metadata_for("a:1"), metadata_for("c:3")];

    let missing = Metadata::missing_targets(&old, &new);

    assert_eq!(missing.len(), 1);
    assert_eq!(missing[0].target_addr, "b:2");
}

#[test]
fn returns_empty_when_targets_unchanged() {
    let old = vec![metadata_for("a:1"), metadata_for("b:2")];
    let new = vec![metadata_for("a:1"), metadata_for("b:2")];

    assert!(Metadata::missing_targets(&old, &new).is_empty());
}

#[test]
fn returns_empty_when_old_is_empty() {
    let old: Vec<Metadata> = Vec::new();
    let new = vec![metadata_for("a:1")];

    assert!(Metadata::missing_targets(&old, &new).is_empty());
}

#[test]
fn rotate_generation_reuses_pool_when_max_connections_unchanged() {
    let mut relay = Relay::new(metadata(10));
    let pool_before = relay.generation().pool.clone();

    relay.rotate_generation(metadata(10), RenameOutcome::Renamed);
    let pool_after = relay.generation().pool.clone();

    assert!(Arc::ptr_eq(&pool_before, &pool_after));
}

#[test]
fn rotate_generation_replaces_pool_when_max_connections_changed() {
    let mut relay = Relay::new(metadata(10));
    let pool_before = relay.generation().pool.clone();

    relay.rotate_generation(metadata(20), RenameOutcome::Renamed);
    let pool_after = relay.generation().pool.clone();

    assert!(!Arc::ptr_eq(&pool_before, &pool_after));
    assert_eq!(pool_after.available_permits(), 20);
}

#[test]
fn rotation_follows_a_renamed_socket() {
    let mut relay = Relay::new(metadata_with_path(10, "/d/old.sock"));
    let next = metadata_with_path(10, "/d/new.sock");
    assert_eq!(
        relay.rename_for(&next),
        Some(("/d/old.sock".to_string(), "/d/new.sock".to_string()))
    );
    assert!(relay.rotate_generation(next, RenameOutcome::Renamed));
    assert_eq!(relay.generation().metadata.socket_path, "/d/new.sock");
}

#[test]
fn rotation_applies_when_there_was_no_socket_to_rename() {
    let mut relay = Relay::new(metadata_with_path(10, "/d/old.sock"));
    let next = metadata_with_path(10, "/d/new.sock");
    assert!(relay.rotate_generation(next, RenameOutcome::NotFound));
    assert_eq!(relay.generation().metadata.socket_path, "/d/new.sock");
}

#[test]
fn rotation_is_given_up_when_the_rename_fails() {
    let mut relay = Relay::new(metadata_with_path(10, "/d/old.sock"));
    let pool_before = relay.generation().pool.clone();
    let next = metadata_with_path(20, "/d/new_dir");
    assert!(!relay.rotate_generation(next, RenameOutcome::Failed));
    assert_eq!(relay.generation().metadata.socket_path, "/d/old.sock");
    assert!(Arc::ptr_eq(&pool_before, &relay.generation().pool));
}

#[test]
fn equal_paths_need_no_rename() {
    let mut relay = Relay::new(metadata_with_path(10, "/d//s/./x.sock"));
    let next = metadata_with_path(10, "/d/s/x.sock/");
    assert!(relay.rename_for(&next).is_none());
    assert!(relay.rotate_generation(next, RenameOutcome::Failed));
    assert_eq!(relay.generation().metadata.socket_path, "/d/s/x.sock/");
}

#[test]
fn new_relay_has_a_pool_of_its_own() {
    let relay = Relay::new(metadata(7));
    assert_eq!(relay.generation().pool.available_permits(), 7);
    assert!(relay.is_drained());
}

#[test]
fn listener_follows_the_probe() {
    let mut relay = Relay::new(metadata(1));
    assert!(matches!(relay.on_probe(false), ListenerAction::Keep));
    assert!(matches!(relay.on_probe(true), ListenerAction::Start));
    assert!(matches!(relay.on_probe(true), ListenerAction::Keep));
    match relay.on_probe(false) {
        ListenerAction::Stop(path) => assert_eq!(path, "/tmp/test.sock"),
        other => panic!("{other:?}"),
    }
    assert!(matches!(relay.stop_active_listener(), ListenerAction::Keep));
    assert!(matches!(relay.on_probe(true), ListenerAction::Start));
    assert!(matches!(relay.stop_active_listener(), ListenerAction::Stop(_)));
    assert!(matches!(relay.stop_active_listener(), ListenerAction::Keep));
}

fn push(relay: &Relay, snap: &mut MetricsSnapshot) -> (String, u64) {
    match relay.on_report_tick(snap) {
        ReportStep::Push(path, secs) => (path, secs),
        ReportStep::Stop => panic!("no report"),
    }
}

#[test]
fn no_report_follows_shutdown() {
    let mut relay = Relay::new(metadata(1));
    relay.shutdown();
    let mut snap = MetricsSnapshot::default("before".to_string(), "test".to_string());
    assert!(matches!(relay.on_report_tick(&mut snap), ReportStep::Stop));
    assert_eq!(snap.tentacle_id, "before");
    assert_eq!(snap.timestamp_ms, 0);
    assert!(relay.rotate_generation(metadata(2), RenameOutcome::Renamed));
    assert!(matches!(relay.on_report_tick(&mut snap), ReportStep::Stop));
}

#[test]
fn a_probe_in_flight_at_shutdown_still_counts() {
    let mut relay = Relay::new(metadata(1));
    relay.shutdown();
    assert!(matches!(relay.on_probe(true), ListenerAction::Start));
    assert!(matches!(relay.on_probe(true), ListenerAction::Keep));
    assert!(matches!(relay.stop_active_listener(), ListenerAction::Stop(_)));
}

#[test]
fn reports_follow_the_rotation() {
    let mut relay = Relay::new(metadata(1));
    let mut snap = MetricsSnapshot::default(String::new(), "test".to_string());
    assert_eq!(push(&relay, &mut snap), ("/tmp/test.sock".to_string(), 1));
    assert_eq!(snap.tentacle_id, "test");
    let next = Metadata {
        common: Arc::new(CommonInfo {
            max_connections: 1,
            service_name: "test".to_string(),
            metrics_interval_secs: 30,
        }),
        socket_id: "other".to_string(),
        socket_path: "/tmp/other.sock".to_string(),
        ..metadata(1)
    };
    assert!(relay.rotate_generation(next, RenameOutcome::Renamed));
    assert_eq!(push(&relay, &mut snap), ("/tmp/other.sock".to_string(), 30));
    assert_eq!(snap.tentacle_id, "other");
}

#[test]
fn intervals_are_never_zero() {
    assert_eq!(report_interval(15, 30), 30);
    assert_eq!(report_interval(15, 15), 15);
    assert_eq!(report_interval(15, 0), 15);
}

#[test]
fn reports_accumulate_until_one_is_delivered() {
    let mut relay = Relay::new(metadata(1));
    let mut snap = MetricsSnapshot::default(String::new(), "test".to_string());
    relay.metrics_mut().add_attempts_total();
    assert_eq!(push(&relay, &mut snap).0, "/tmp/test.sock");
    assert_eq!(snap.tentacle_id, "test");
    assert_eq!(snap.service, "test");
    assert_eq!(snap.connection_attempts_delta, 1);
    assert!(snap.timestamp_ms > 1_500_000_000_000);
    relay.finish_push(&snap, false);
    relay.metrics_mut().add_attempts_total();
    push(&relay, &mut snap);
    assert_eq!(snap.connection_attempts_delta, 2);
    relay.metrics_mut().add_attempts_total();
    assert!(relay.covers(&snap));
    relay.finish_push(&snap, true);
    assert!(!relay.covers(&snap));
    push(&relay, &mut snap);
    assert_eq!(snap.connection_attempts_delta, 1);
}

#[test]
fn a_relay_with_connections_is_not_drained() {
    let mut relay = Relay::new(metadata(1));
    relay.metrics_mut().add_active_connection();
    assert!(!relay.is_drained());
    relay.metrics_mut().remove_active_connection();
    assert!(relay.is_drained());
}

#[test]
fn sockets_are_bound_beside_their_path() {
    assert_eq!(temp_path("/run/svc/a.b_80@5.sock"), "/run/svc/a.b_80@5.tmp");
    assert_eq!(temp_path("a/..b"), "a/..tmp");
    for path in [
        "x.sock", "x", ".sock", "a/.x.y", "a.d/x", "a/x.sock/", "a/x.sock//./", "", "/", ".", "./.",
        "..", "a/..", "a/...", "a//b.", "/.", "x..y", "é.ü",
    ] {
        assert_eq!(
            temp_path(path),
            std::path::Path::new(path).with_extension("tmp").to_str().unwrap(),
            "{path}"
        );
    }
}

fn totals(metrics: &MetricsManager) -> (u64, u64, u64, u64, u64) {
    let mut snap = MetricsSnapshot::default(String::new(), String::new());
    metrics.take_snapshot_at(0, &mut snap);
    (
        snap.active_connections,
        snap.connection_attempts_delta,
        snap.connection_failures_delta,
        snap.transport_latency_seconds[11],
        snap.bytes_transmitted_delta,
    )
}

#[test]
fn plain_connection_is_accounted_for() {
    let mut metrics = MetricsManager::new(true);
    let mut conn = Connection::open(&mut metrics, false);
    assert_eq!(totals(&metrics), (1, 1, 0, 0, 0));
    conn.on_dialed(&mut metrics, true, 10);
    assert_eq!(conn.stage, Stage::Relaying);
    metrics.add_bytes_transmitted_total(9);
    conn.on_relayed(&mut metrics);
    assert_eq!(conn.stage, Stage::Closed);
    assert_eq!(totals(&metrics), (0, 1, 0, 1, 9));
}

#[test]
fn failed_dial_is_accounted_for() {
    let mut metrics = MetricsManager::new(true);
    let mut conn = Connection::open(&mut metrics, true);
    conn.on_dialed(&mut metrics, false, 10);
    assert_eq!(conn.stage, Stage::Closed);
    assert_eq!(totals(&metrics), (0, 1, 1, 0, 0));
}

#[test]
fn tls_connection_waits_for_the_handshake() {
    let mut metrics = MetricsManager::new(true);
    let mut conn = Connection::open(&mut metrics, true);
    conn.on_dialed(&mut metrics, true, 10);
    assert_eq!(conn.stage, Stage::Handshaking);
    assert_eq!(totals(&metrics), (1, 1, 0, 0, 0));
    conn.on_handshake(&mut metrics, true, 20);
    assert_eq!(conn.stage, Stage::Relaying);
    assert_eq!(totals(&metrics), (1, 1, 0, 1, 0));
}

#[test]
fn failed_handshake_is_accounted_for() {
    let mut metrics = MetricsManager::new(true);
    let mut conn = Connection::open(&mut metrics, true);
    conn.on_dialed(&mut metrics, true, 10);
    conn.on_handshake(&mut metrics, false, 20);
    assert_eq!(conn.stage, Stage::Closed);
    assert_eq!(totals(&metrics), (0, 1, 1, 0, 0));
}

#[test]
fn latency_since_an_instant_is_observed() {
    let mut metrics = MetricsManager::new(true);
    let start = Instant::now();
    assert!(latency_us(start) < 5_000_000);
    let earlier = start - std::time::Duration::from_secs(3);
    assert!((3_000_000..8_000_000).contains(&latency_us(earlier)));
    report_latency(&mut metrics, start);
    assert_eq!(totals(&metrics).3, 1);
}

#[test]
fn guard_recognises_its_file() {
    let guard = SocketGuard::new("/s".to_string(), 3, 4);
    assert_eq!(guard.path, "/s");
    assert!(guard.owns_current_file(Some((3, 4))));
    assert!(!guard.owns_current_file(Some((3, 5))));
    assert!(!guard.owns_current_file(Some((4, 4))));
    assert!(!guard.owns_current_file(None));
}

#[test]
fn listener_stops_on_failure_or_request() {
    let relay = Relay::new(metadata(3));
    match relay.on_accept(AcceptEvent::Accepted) {
        AcceptStep::Serve(generation) => {
            assert!(Arc::ptr_eq(&generation, &relay.generation()));
            assert_eq!(generation.pool.available_permits(), 3);
        }
        AcceptStep::End => panic!("not served"),
    }
    assert!(matches!(relay.on_accept(AcceptEvent::Failed), AcceptStep::End));
    assert!(matches!(relay.on_accept(AcceptEvent::Stopped), AcceptStep::End));
}
