//! Connection metrics: counters, a latency histogram, and snapshots of both.
pub mod laws;
pub mod payload;

use std::time::{Duration, SystemTime, SystemTimeError};
use vstd::prelude::*;

verus! {

/// Number of latency buckets: one for each boundary, and one without an upper bound.
pub const BUCKET_COUNT: usize = 12;

/// Upper bounds of the latency buckets, in microseconds. The last bucket has none.
pub const BUCKET_BOUNDARIES_US: [u64; 11] = [
    5_000,
    10_000,
    25_000,
    50_000,
    100_000,
    250_000,
    500_000,
    1_000_000,
    2_500_000,
    5_000_000,
    10_000_000,
];

/// `a + b`, wrapping around at the bounds of the type.
pub open spec fn wrapped(a: u64, b: int) -> u64 {
    ((a + b) % 0x1_0000_0000_0000_0000) as u64
}

/// Whether a duration in microseconds counts toward bucket `i`.
pub open spec fn counts_toward(duration: u64, i: int) -> bool {
    i == BUCKET_COUNT - 1 || duration <= BUCKET_BOUNDARIES_US@[i]
}

/// The totals that are reported and then deducted.
#[verifier::ext_equal]
pub struct Totals {
    pub attempts: u64,
    pub failures: u64,
    pub bytes: u64,
    pub latency: Seq<u64>,
}

impl Totals {
    /// No events at all.
    pub open spec fn zero() -> Totals {
        Totals {
            attempts: 0,
            failures: 0,
            bytes: 0,
            latency: Seq::new(BUCKET_COUNT as nat, |i: int| 0u64),
        }
    }

    /// Whether every total is at least the corresponding total of `sent`.
    pub open spec fn covers(self, sent: Totals) -> bool {
        &&& self.attempts >= sent.attempts
        &&& self.failures >= sent.failures
        &&& self.bytes >= sent.bytes
        &&& self.latency.len() == sent.latency.len()
        &&& forall|i: int|
            0 <= i < self.latency.len() ==> #[trigger] self.latency[i] >= sent.latency[i]
    }

    /// What is left after `sent` is deducted.
    pub open spec fn less(self, sent: Totals) -> Totals {
        Totals {
            attempts: (self.attempts - sent.attempts) as u64,
            failures: (self.failures - sent.failures) as u64,
            bytes: (self.bytes - sent.bytes) as u64,
            latency: Seq::new(
                self.latency.len(),
                |i: int| (self.latency[i] - sent.latency[i]) as u64,
            ),
        }
    }
}

/// What a metrics manager holds.
#[verifier::ext_equal]
pub struct MetricsState {
    pub enabled: bool,
    pub active: u64,
    pub totals: Totals,
}

impl MetricsState {
    /// One more connection is active.
    pub open spec fn opened(self) -> MetricsState {
        MetricsState { active: wrapped(self.active, 1), ..self }
    }

    /// One connection less is active.
    pub open spec fn closed(self) -> MetricsState {
        MetricsState { active: wrapped(self.active, -1), ..self }
    }

    /// One more connection was attempted.
    pub open spec fn attempted(self) -> MetricsState {
        if self.enabled {
            MetricsState {
                totals: Totals { attempts: wrapped(self.totals.attempts, 1), ..self.totals },
                ..self
            }
        } else {
            self
        }
    }

    /// One more connection failed.
    pub open spec fn failed(self) -> MetricsState {
        if self.enabled {
            MetricsState {
                totals: Totals { failures: wrapped(self.totals.failures, 1), ..self.totals },
                ..self
            }
        } else {
            self
        }
    }

    /// `n` more bytes went through.
    pub open spec fn transmitted(self, n: u64) -> MetricsState {
        if self.enabled {
            MetricsState {
                totals: Totals { bytes: wrapped(self.totals.bytes, n as int), ..self.totals },
                ..self
            }
        } else {
            self
        }
    }

    /// A latency of `duration` microseconds was observed.
    pub open spec fn observed(self, duration: u64) -> MetricsState {
        if self.enabled {
            MetricsState {
                totals: Totals {
                    latency: Seq::new(
                        self.totals.latency.len(),
                        |i: int|
                            if counts_toward(duration, i) {
                                wrapped(self.totals.latency[i], 1)
                            } else {
                                self.totals.latency[i]
                            },
                    ),
                    ..self.totals
                },
                ..self
            }
        } else {
            self
        }
    }

    /// The totals of `sent` were delivered.
    pub open spec fn committed(self, sent: Totals) -> MetricsState {
        MetricsState { totals: self.totals.less(sent), ..self }
    }
}

/// Running metrics of one relay. While disabled, only the number of active connections is kept.
pub struct MetricsManager {
    enabled: bool,
    active_connections: u64,
    connection_attempts_total: u64,
    connection_failures_total: u64,
    bytes_transmitted_total: u64,
    transport_latency_seconds: [u64; BUCKET_COUNT],
}

impl View for MetricsManager {
    type V = MetricsState;

    closed spec fn view(&self) -> MetricsState {
        MetricsState {
            enabled: self.enabled,
            active: self.active_connections,
            totals: Totals {
                attempts: self.connection_attempts_total,
                failures: self.connection_failures_total,
                bytes: self.bytes_transmitted_total,
                latency: self.transport_latency_seconds@,
            },
        }
    }
}

/// The metrics at one moment, as they are reported.
pub struct MetricsSnapshot {
    pub tentacle_id: String,
    pub service: String,
    pub timestamp_ms: i64,
    pub active_connections: u64,
    pub connection_attempts_delta: u64,
    pub connection_failures_delta: u64,
    pub bytes_transmitted_delta: u64,
    pub transport_latency_seconds: [u64; BUCKET_COUNT],
}

impl MetricsSnapshot {
    /// The totals that the snapshot reports.
    pub open spec fn totals(&self) -> Totals {
        Totals {
            attempts: self.connection_attempts_delta,
            failures: self.connection_failures_delta,
            bytes: self.bytes_transmitted_delta,
            latency: self.transport_latency_seconds@,
        }
    }

    /// A snapshot of no activity.
    pub fn default(tentacle_id: String, service: String) -> (r: MetricsSnapshot)
        ensures
            r.tentacle_id == tentacle_id,
            r.service == service,
            r.timestamp_ms == 0,
            r.active_connections == 0,
            r.totals() == Totals::zero(),
    {
        MetricsSnapshot {
            tentacle_id,
            service,
            timestamp_ms: 0,
            active_connections: 0,
            connection_attempts_delta: 0,
            connection_failures_delta: 0,
            bytes_transmitted_delta: 0,
            transport_latency_seconds: [0u64; BUCKET_COUNT],
        }
    }
}

impl MetricsManager {
    /// Metrics of no activity.
    pub fn new(enabled: bool) -> (r: Self)
        ensures
            r@ == (MetricsState { enabled, active: 0, totals: Totals::zero() }),
    {
        Self {
            enabled,
            active_connections: 0,
            connection_attempts_total: 0,
            connection_failures_total: 0,
            bytes_transmitted_total: 0,
            transport_latency_seconds: [0u64; BUCKET_COUNT],
        }
    }

    /// Counts a connection as active, whether or not metrics are enabled.
    pub fn add_active_connection(&mut self)
        ensures
            final(self)@ == old(self)@.opened(),
    {
        self.active_connections = self.active_connections.wrapping_add(1);
    }

    /// Counts a connection as no longer active, whether or not metrics are enabled.
    pub fn remove_active_connection(&mut self)
        ensures
            final(self)@ == old(self)@.closed(),
    {
        self.active_connections = self.active_connections.wrapping_sub(1);
    }

    /// The number of active connections.
    pub fn active_connections(&self) -> (r: u64)
        ensures
            r == self@.active,
    {
        self.active_connections
    }

    /// Counts a connection attempt.
    pub fn add_attempts_total(&mut self)
        ensures
            final(self)@ == old(self)@.attempted(),
    {
        if !self.enabled {
            return;
        }
        self.connection_attempts_total = self.connection_attempts_total.wrapping_add(1);
    }

    /// Counts a failed connection.
    pub fn add_failures_total(&mut self)
        ensures
            final(self)@ == old(self)@.failed(),
    {
        if !self.enabled {
            return;
        }
        self.connection_failures_total = self.connection_failures_total.wrapping_add(1);
    }

    /// Counts transmitted bytes.
    pub fn add_bytes_transmitted_total(&mut self, bytes: u64)
        ensures
            final(self)@ == old(self)@.transmitted(bytes),
    {
        if !self.enabled {
            return;
        }
        self.bytes_transmitted_total = self.bytes_transmitted_total.wrapping_add(bytes);
    }

    /// Counts a latency, in microseconds, in every bucket whose upper bound it does not exceed.
    pub fn observe_duration(&mut self, duration: u64)
        ensures
            final(self)@ == old(self)@.observed(duration),
    {
        if !self.enabled {
            return;
        }
        let ghost before = self.transport_latency_seconds@;
        let mut i: usize = 0;
        while i < BUCKET_COUNT
            invariant
                i <= BUCKET_COUNT,
                before.len() == BUCKET_COUNT,
                before == old(self)@.totals.latency,
                old(self)@.enabled,
                self@ == (MetricsState {
                    totals: Totals {
                        latency: self.transport_latency_seconds@,
                        ..old(self)@.totals
                    },
                    ..old(self)@
                }),
                forall|j: int|
                    0 <= j < i ==> #[trigger] self.transport_latency_seconds@[j] == (
                    if counts_toward(duration, j) {
                        wrapped(before[j], 1)
                    } else {
                        before[j]
                    }),
                forall|j: int|
                    i <= j < BUCKET_COUNT ==> #[trigger] self.transport_latency_seconds@[j]
                        == before[j],
            decreases BUCKET_COUNT - i,
        {
            if i == BUCKET_COUNT - 1 || duration <= BUCKET_BOUNDARIES_US[i] {
                let count: u64 = self.transport_latency_seconds[i];
                self.transport_latency_seconds[i] = count.wrapping_add(1);
            }
            i += 1;
        }
        assert(self@.totals.latency == old(self)@.observed(duration).totals.latency);
    }

    /// Writes the current values into `snapshot`, stamped with `timestamp_ms`. The identifiers of
    /// the snapshot stay as they are.
    pub fn take_snapshot_at(&self, timestamp_ms: i64, snapshot: &mut MetricsSnapshot)
        ensures
            final(snapshot).tentacle_id == old(snapshot).tentacle_id,
            final(snapshot).service == old(snapshot).service,
            final(snapshot).timestamp_ms == timestamp_ms,
            final(snapshot).active_connections == self@.active,
            final(snapshot).totals() == self@.totals,
    {
        snapshot.timestamp_ms = timestamp_ms;
        snapshot.active_connections = self.active_connections;
        snapshot.connection_attempts_delta = self.connection_attempts_total;
        snapshot.connection_failures_delta = self.connection_failures_total;
        snapshot.bytes_transmitted_delta = self.bytes_transmitted_total;
        snapshot.transport_latency_seconds = self.transport_latency_seconds;
    }

    /// Writes the current values into `snapshot`, stamped with the current time. The identifiers
    /// of the snapshot stay as they are.
    pub fn take_snapshot(&self, snapshot: &mut MetricsSnapshot)
        ensures
            final(snapshot).tentacle_id == old(snapshot).tentacle_id,
            final(snapshot).service == old(snapshot).service,
            exists|now: SystemTime| final(snapshot).timestamp_ms == #[trigger] time_stamp(now),
            final(snapshot).active_connections == self@.active,
            final(snapshot).totals() == self@.totals,
    {
        let now = SystemTime::now();
        let timestamp: i64 = match since_epoch(now) {
            Ok(elapsed) => elapsed.as_millis() as i64,
            Err(_) => 0,
        };
        assert(timestamp == time_stamp(now));
        self.take_snapshot_at(timestamp, snapshot);
    }

    /// Whether every total is at least what `snapshot` reports, so that the snapshot can be
    /// deducted.
    pub fn covers(&self, snapshot: &MetricsSnapshot) -> (r: bool)
        ensures
            r == self@.totals.covers(snapshot.totals()),
    {
        if self.connection_attempts_total < snapshot.connection_attempts_delta
            || self.connection_failures_total < snapshot.connection_failures_delta
            || self.bytes_transmitted_total < snapshot.bytes_transmitted_delta {
            return false;
        }
        let mut i: usize = 0;
        while i < BUCKET_COUNT
            invariant
                i <= BUCKET_COUNT,
                self.connection_attempts_total >= snapshot.connection_attempts_delta,
                self.connection_failures_total >= snapshot.connection_failures_delta,
                self.bytes_transmitted_total >= snapshot.bytes_transmitted_delta,
                forall|j: int|
                    0 <= j < i ==> #[trigger] self@.totals.latency[j]
                        >= snapshot.totals().latency[j],
            decreases BUCKET_COUNT - i,
        {
            if self.transport_latency_seconds[i] < snapshot.transport_latency_seconds[i] {
                assert(self@.totals.latency[i as int] < snapshot.totals().latency[i as int]);
                return false;
            }
            i += 1;
        }
        true
    }

    /// Deducts what `snapshot` reported, once it was delivered. What came in since then stays.
    pub fn commit_sent_metrics(&mut self, snapshot: &MetricsSnapshot)
        requires
            old(self)@.totals.covers(snapshot.totals()),
        ensures
            final(self)@ == old(self)@.committed(snapshot.totals()),
    {
        self.connection_attempts_total =
        self.connection_attempts_total - snapshot.connection_attempts_delta;
        self.connection_failures_total =
        self.connection_failures_total - snapshot.connection_failures_delta;
        self.bytes_transmitted_total =
        self.bytes_transmitted_total - snapshot.bytes_transmitted_delta;
        let ghost kept = *self;
        let ghost before = self.transport_latency_seconds@;
        let ghost sent = snapshot.transport_latency_seconds@;
        let mut i: usize = 0;
        while i < BUCKET_COUNT
            invariant
                i <= BUCKET_COUNT,
                before.len() == BUCKET_COUNT,
                sent == snapshot.transport_latency_seconds@,
                forall|j: int| 0 <= j < BUCKET_COUNT ==> #[trigger] before[j] >= sent[j],
                self.enabled == kept.enabled,
                self.active_connections == kept.active_connections,
                self.connection_attempts_total == kept.connection_attempts_total,
                self.connection_failures_total == kept.connection_failures_total,
                self.bytes_transmitted_total == kept.bytes_transmitted_total,
                forall|j: int|
                    0 <= j < i ==> #[trigger] self.transport_latency_seconds@[j] == before[j]
                        - sent[j],
                forall|j: int|
                    i <= j < BUCKET_COUNT ==> #[trigger] self.transport_latency_seconds@[j]
                        == before[j],
            decreases BUCKET_COUNT - i,
        {
            assert(before[i as int] >= sent[i as int]);
            let left: u64 = self.transport_latency_seconds[i]
                - snapshot.transport_latency_seconds[i];
            self.transport_latency_seconds[i] = left;
            i += 1;
        }
        assert(self@.totals.latency == old(self)@.committed(snapshot.totals()).totals.latency);
    }
}

/// A moment on the system clock.
#[verifier::external_type_specification]
#[verifier::external_body]
pub struct ExSystemTime(SystemTime);

/// The error for a moment that lies before another.
#[verifier::external_type_specification]
#[verifier::external_body]
pub struct ExSystemTimeError(SystemTimeError);

/// `SystemTime::now`: reads the system clock. Nothing is claimed of the moment it returns.
pub assume_specification[ SystemTime::now ]() -> SystemTime;

/// The length of a duration in nanoseconds.
pub uninterp spec fn nanoseconds(duration: Duration) -> nat;

/// `Duration::as_millis`: the whole milliseconds in a duration.
pub assume_specification[ Duration::as_millis ](duration: &Duration) -> (r: u128)
    ensures
        r == nanoseconds(*duration) / 1_000_000,
;

/// `Duration::as_micros`: the whole microseconds in a duration.
pub assume_specification[ Duration::as_micros ](duration: &Duration) -> (r: u128)
    ensures
        r == nanoseconds(*duration) / 1_000,
;

/// The time from the Unix epoch to a moment, as `SystemTime::duration_since` gives it; `None` for
/// a moment before the epoch.
pub uninterp spec fn unix_time(moment: SystemTime) -> Option<Duration>;

/// `SystemTime::duration_since`, applied to the Unix epoch, under the name `unix_time`.
#[verifier::external_body]
fn since_epoch(moment: SystemTime) -> (r: Result<Duration, SystemTimeError>)
    ensures
        r matches Ok(elapsed) ==> unix_time(moment) == Some(elapsed),
        r is Err ==> unix_time(moment) is None,
{
    moment.duration_since(std::time::UNIX_EPOCH)
}

/// The time stamp for a moment: the milliseconds since the Unix epoch, or 0 before it.
pub open spec fn time_stamp(moment: SystemTime) -> i64 {
    match unix_time(moment) {
        Some(elapsed) => (nanoseconds(elapsed) / 1_000_000) as i64,
        None => 0,
    }
}

} // verus!
