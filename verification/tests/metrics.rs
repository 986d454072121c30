use tentacle::metrics::payload::{Bucket, MetricKind};
use tentacle::metrics::{MetricsManager, MetricsSnapshot, BUCKET_BOUNDARIES_US, BUCKET_COUNT};

fn snapshot(metrics: &MetricsManager) -> MetricsSnapshot {
    let mut snap = MetricsSnapshot::default("id".to_string(), "svc".to_string());
    metrics.take_snapshot_at(42, &mut snap);
    snap
}

#[test]
fn default_snapshot_is_zero() {
    let snap = MetricsSnapshot::default("id".to_string(), "svc".to_string());
    assert_eq!(snap.tentacle_id, "id");
    assert_eq!(snap.service, "svc");
    assert_eq!(snap.timestamp_ms, 0);
    assert_eq!(snap.active_connections, 0);
    assert_eq!(snap.connection_attempts_delta, 0);
    assert_eq!(snap.connection_failures_delta, 0);
    assert_eq!(snap.bytes_transmitted_delta, 0);
    assert_eq!(snap.transport_latency_seconds, [0u64; BUCKET_COUNT]);
}

#[test]
fn counters_count() {
    let mut m = MetricsManager::new(true);
    m.add_active_connection();
    m.add_active_connection();
    m.remove_active_connection();
    m.add_attempts_total();
    m.add_failures_total();
    m.add_failures_total();
    m.add_bytes_transmitted_total(5);
    m.add_bytes_transmitted_total(7);
    let snap = snapshot(&m);
    assert_eq!(m.active_connections(), 1);
    assert_eq!(snap.active_connections, 1);
    assert_eq!(snap.connection_attempts_delta, 1);
    assert_eq!(snap.connection_failures_delta, 2);
    assert_eq!(snap.bytes_transmitted_delta, 12);
    assert_eq!(snap.timestamp_ms, 42);
    assert_eq!(snap.tentacle_id, "id");
    assert_eq!(snap.service, "svc");
}

#[test]
fn disabled_metrics_keep_only_active_connections() {
    let mut m = MetricsManager::new(false);
    m.add_active_connection();
    m.add_attempts_total();
    m.add_failures_total();
    m.add_bytes_transmitted_total(5);
    m.observe_duration(1);
    let snap = snapshot(&m);
    assert_eq!(snap.active_connections, 1);
    assert_eq!(snap.connection_attempts_delta, 0);
    assert_eq!(snap.connection_failures_delta, 0);
    assert_eq!(snap.bytes_transmitted_delta, 0);
    assert_eq!(snap.transport_latency_seconds, [0u64; BUCKET_COUNT]);
}

#[test]
fn counters_wrap_around() {
    let mut m = MetricsManager::new(true);
    m.remove_active_connection();
    assert_eq!(m.active_connections(), u64::MAX);
    m.add_active_connection();
    assert_eq!(m.active_connections(), 0);
    m.add_bytes_transmitted_total(u64::MAX);
    m.add_bytes_transmitted_total(3);
    assert_eq!(snapshot(&m).bytes_transmitted_delta, 2);
}

#[test]
fn latencies_fall_into_cumulative_buckets() {
    let mut m = MetricsManager::new(true);
    m.observe_duration(0);
    m.observe_duration(5_000);
    m.observe_duration(5_001);
    m.observe_duration(10_000_000);
    m.observe_duration(10_000_001);
    m.observe_duration(u64::MAX);
    assert_eq!(
        snapshot(&m).transport_latency_seconds,
        [2, 3, 3, 3, 3, 3, 3, 3, 3, 3, 4, 6]
    );
}

#[test]
fn boundaries_go_up() {
    assert_eq!(BUCKET_BOUNDARIES_US.len() + 1, BUCKET_COUNT);
    assert!(BUCKET_BOUNDARIES_US.windows(2).all(|w| w[0] < w[1]));
}

#[test]
fn commit_keeps_what_came_in_since() {
    let mut m = MetricsManager::new(true);
    m.add_attempts_total();
    m.add_bytes_transmitted_total(10);
    m.observe_duration(20_000);
    let sent = snapshot(&m);
    m.add_attempts_total();
    m.add_failures_total();
    m.add_bytes_transmitted_total(1);
    m.observe_duration(1);
    m.add_active_connection();
    assert!(m.covers(&sent));
    m.commit_sent_metrics(&sent);
    let left = snapshot(&m);
    assert_eq!(left.active_connections, 1);
    assert_eq!(left.connection_attempts_delta, 1);
    assert_eq!(left.connection_failures_delta, 1);
    assert_eq!(left.bytes_transmitted_delta, 1);
    assert_eq!(left.transport_latency_seconds, [1u64; BUCKET_COUNT]);
}

#[test]
fn a_snapshot_of_more_than_there_is_is_not_covered() {
    let m = MetricsManager::new(true);
    let mut snap = snapshot(&m);
    assert!(m.covers(&snap));
    snap.transport_latency_seconds[11] = 1;
    assert!(!m.covers(&snap));
    snap.transport_latency_seconds[11] = 0;
    snap.bytes_transmitted_delta = 1;
    assert!(!m.covers(&snap));
}

#[test]
fn snapshot_is_stamped_with_the_time() {
    let m = MetricsManager::new(true);
    let mut snap = MetricsSnapshot::default(String::new(), String::new());
    m.take_snapshot(&mut snap);
    // 2020-01-01 and 2100-01-01 in milliseconds.
    assert!(snap.timestamp_ms > 1_577_836_800_000);
    assert!(snap.timestamp_ms < 4_102_444_800_000);
}

#[test]
fn payload_lists_every_metric() {
    let mut m = MetricsManager::new(true);
    m.add_active_connection();
    m.add_attempts_total();
    m.add_attempts_total();
    m.add_failures_total();
    m.add_bytes_transmitted_total(1000);
    m.observe_duration(7_000_000);
    let payload = MetricsManager::payload(&snapshot(&m));
    assert_eq!(payload.tentacle_id, "id");
    assert_eq!(payload.service, "svc");
    assert_eq!(payload.timestamp_ms, 42);
    let plain: Vec<(&str, MetricKind, u64, usize)> = payload
        .metrics
        .iter()
        .map(|m| (m.name.as_str(), m.kind, m.value, m.buckets.len()))
        .collect();
    assert_eq!(
        plain,
        vec![
            ("tentacle_active_connections", MetricKind::Gauge, 1, 0),
            ("tentacle_connection_attempts_total", MetricKind::Counter, 2, 0),
            ("tentacle_connection_failures_total", MetricKind::Counter, 1, 0),
            ("tentacle_bytes_transmitted_total", MetricKind::Counter, 1000, 0),
            ("tentacle_transport_latency_seconds", MetricKind::Histogram, 0, 12),
        ]
    );
    let buckets = &payload.metrics[4].buckets;
    assert_eq!(buckets[0], Bucket { le_us: Some(5_000), count: 0 });
    assert_eq!(buckets[9], Bucket { le_us: Some(5_000_000), count: 0 });
    assert_eq!(buckets[10], Bucket { le_us: Some(10_000_000), count: 1 });
    assert_eq!(buckets[11], Bucket { le_us: None, count: 1 });
}

#[test]
fn frames_have_header_length_payload_and_checksum() {
    let mut frame = vec![9, 9, 9];
    MetricsManager::frame_payload(&Vec::new(), &mut frame);
    assert_eq!(frame, vec![0xbe, 0x01, 0, 0, 0, 0, 0x07, 0x1b]);
    MetricsManager::frame_payload(&b"abc".to_vec(), &mut frame);
    assert_eq!(
        frame,
        vec![0xbe, 0x01, 0, 0, 0, 3, 0x61, 0x62, 0x63, 0x5a, 0xd3]
    );
    MetricsManager::frame_payload(&vec![0u8; 300], &mut frame);
    assert_eq!(frame.len(), 308);
    assert_eq!(&frame[..6], &[0xbe, 0x01, 0, 0, 1, 0x2c]);
    assert_eq!(&frame[306..], &[0xfc, 0x02]);
}

#[test]
fn snapshots_are_encoded_and_framed() {
    let m = MetricsManager::new(true);
    let snap = snapshot(&m);
    let mut payload_buf = vec![1, 2, 3];
    let mut frame = vec![9];
    MetricsManager::encode_to_binary(
        &snap,
        |payload| {
            assert_eq!(payload.metrics.len(), 5);
            format!("{}/{}", payload.service, payload.timestamp_ms).into_bytes()
        },
        &mut payload_buf,
        &mut frame,
    );
    assert_eq!(payload_buf, b"svc/42".to_vec());
    assert_eq!(&frame[..6], &[0xbe, 0x01, 0, 0, 0, 6]);
    assert_eq!(&frame[6..12], b"svc/42");
    assert_eq!(frame.len(), 14);
}

fn x25(bytes: &[u8]) -> u16 {
    let mut register: u16 = 0xffff;
    for byte in bytes {
        register ^= *byte as u16;
        for _ in 0..8 {
            register = if register & 1 == 1 {
                (register >> 1) ^ 0x8408
            } else {
                register >> 1
            };
        }
    }
    register ^ 0xffff
}

#[test]
fn checksum_covers_header_and_payload() {
    assert_eq!(x25(b"123456789"), 0x906e);
    for payload in [Vec::new(), b"123456789".to_vec(), (0..=255).collect()] {
        let mut frame = Vec::new();
        MetricsManager::frame_payload(&payload, &mut frame);
        let (covered, sum) = frame.split_at(frame.len() - 2);
        assert_eq!(sum, x25(covered).to_be_bytes());
    }
}
