//! What holds of the metrics over any course of events.
use crate::metrics::payload::{reported, MetricKind, MetricPayload};
use crate::metrics::{
    counts_toward, nanoseconds, time_stamp, unix_time, wrapped, MetricsSnapshot, MetricsState, Totals,
    BUCKET_BOUNDARIES_US, BUCKET_COUNT,
};
use std::time::SystemTime;
use vstd::prelude::*;

verus! {

/// Something that the metrics count.
pub enum MetricsEvent {
    Opened,
    Closed,
    Attempted,
    Failed,
    Transmitted(u64),
    Observed(u64),
}

/// The state after one event.
pub open spec fn after(state: MetricsState, event: MetricsEvent) -> MetricsState {
    match event {
        MetricsEvent::Opened => state.opened(),
        MetricsEvent::Closed => state.closed(),
        MetricsEvent::Attempted => state.attempted(),
        MetricsEvent::Failed => state.failed(),
        MetricsEvent::Transmitted(n) => state.transmitted(n),
        MetricsEvent::Observed(duration) => state.observed(duration),
    }
}

/// The state after a course of events.
pub open spec fn after_all(state: MetricsState, events: Seq<MetricsEvent>) -> MetricsState
    decreases events.len(),
{
    if events.len() == 0 {
        state
    } else {
        after(after_all(state, events.drop_last()), events.last())
    }
}

/// The sum of what each event contributes.
pub open spec fn sum(events: Seq<MetricsEvent>, part: spec_fn(MetricsEvent) -> nat) -> nat
    decreases events.len(),
{
    if events.len() == 0 {
        0
    } else {
        sum(events.drop_last(), part) + part(events.last())
    }
}

/// 1 for an attempt.
pub open spec fn attempts_part() -> spec_fn(MetricsEvent) -> nat {
    |e: MetricsEvent| if e is Attempted { 1nat } else { 0nat }
}

/// 1 for a failure.
pub open spec fn failures_part() -> spec_fn(MetricsEvent) -> nat {
    |e: MetricsEvent| if e is Failed { 1nat } else { 0nat }
}

/// The bytes of a transmission.
pub open spec fn bytes_part() -> spec_fn(MetricsEvent) -> nat {
    |e: MetricsEvent|
        match e {
            MetricsEvent::Transmitted(n) => n as nat,
            _ => 0nat,
        }
}

/// 1 for an observation that counts toward bucket `i`.
pub open spec fn bucket_part(i: int) -> spec_fn(MetricsEvent) -> nat {
    |e: MetricsEvent|
        match e {
            MetricsEvent::Observed(duration) => if counts_toward(duration, i) { 1nat } else { 0nat },
            _ => 0nat,
        }
}

/// 1 for an observation.
pub open spec fn observations_part() -> spec_fn(MetricsEvent) -> nat {
    |e: MetricsEvent| if e is Observed { 1nat } else { 0nat }
}

proof fn wrapped_adds(a: u64, b: nat, c: nat)
    ensures
        wrapped(wrapped(a, b as int), c as int) == wrapped(a, (b + c) as int),
{
    let m = 0x1_0000_0000_0000_0000int;
    assert(((a + b) % m + c) % m == (a + b + c) % m) by {
        vstd::arithmetic::div_mod::lemma_add_mod_noop(a + b, c as int, m);
        vstd::arithmetic::div_mod::lemma_mod_twice(a + b, m);
        vstd::arithmetic::div_mod::lemma_add_mod_noop((a + b) % m, c as int, m);
    }
}

/// While metrics are enabled, every total is its starting value plus what the events contribute,
/// up to wrapping around.
pub proof fn totals_count_events(state: MetricsState, events: Seq<MetricsEvent>)
    requires
        state.enabled,
        state.totals.latency.len() == BUCKET_COUNT,
    ensures
        after_all(state, events).enabled,
        ({
            let start = state.totals;
            let end = after_all(state, events).totals;
            &&& end.attempts == wrapped(start.attempts, sum(events, attempts_part()) as int)
            &&& end.failures == wrapped(start.failures, sum(events, failures_part()) as int)
            &&& end.bytes == wrapped(start.bytes, sum(events, bytes_part()) as int)
            &&& end.latency.len() == BUCKET_COUNT
            &&& forall|i: int|
                0 <= i < BUCKET_COUNT ==> #[trigger] end.latency[i] == wrapped(
                    start.latency[i],
                    sum(events, bucket_part(i)) as int,
                )
        }),
    decreases events.len(),
{
    if events.len() > 0 {
        let front = events.drop_last();
        let e = events.last();
        totals_count_events(state, front);
        let start = state.totals;
        let mid = after_all(state, front).totals;
        let end = after_all(state, events).totals;
        wrapped_adds(start.attempts, sum(front, attempts_part()), attempts_part()(e));
        wrapped_adds(start.failures, sum(front, failures_part()), failures_part()(e));
        wrapped_adds(start.bytes, sum(front, bytes_part()), bytes_part()(e));
        assert forall|i: int| 0 <= i < BUCKET_COUNT implies #[trigger] end.latency[i] == wrapped(
            start.latency[i],
            sum(events, bucket_part(i)) as int,
        ) by {
            wrapped_adds(start.latency[i], sum(front, bucket_part(i)), bucket_part(i)(e));
            assert(mid.latency[i] == wrapped(start.latency[i], sum(front, bucket_part(i)) as int));
        }
    }
}

/// Deducting a delivered snapshot leaves exactly what the events after the snapshot contribute:
/// nothing is lost and nothing is reported twice.
pub proof fn commit_keeps_what_came_after(state: MetricsState, events: Seq<MetricsEvent>)
    requires
        state.totals.latency.len() == BUCKET_COUNT,
        after_all(state, events).totals.covers(state.totals),
    ensures
        after_all(state, events).committed(state.totals) == after_all(
            MetricsState { totals: Totals::zero(), ..state },
            events,
        ),
{
    let cleared = MetricsState { totals: Totals::zero(), ..state };
    let end = after_all(state, events);
    let rest = after_all(cleared, events);
    active_ignores_totals(state, Totals::zero(), events);
    if state.enabled {
        totals_count_events(state, events);
        totals_count_events(cleared, events);
        difference(state.totals.attempts, sum(events, attempts_part()));
        difference(state.totals.failures, sum(events, failures_part()));
        difference(state.totals.bytes, sum(events, bytes_part()));
        assert forall|i: int| 0 <= i < BUCKET_COUNT implies #[trigger] end.committed(
            state.totals,
        ).totals.latency[i] == rest.totals.latency[i] by {
            assert(end.totals.latency[i] >= state.totals.latency[i]);
            difference(state.totals.latency[i], sum(events, bucket_part(i)));
        }
    } else {
        disabled_totals_stay(state, events);
        disabled_totals_stay(cleared, events);
    }
    assert(end.committed(state.totals).totals.latency == rest.totals.latency);
}

/// As long as no total wraps around, what is counted after a snapshot never makes a total fall below
/// what the snapshot reports, so the snapshot can be deducted whenever it is delivered.
pub proof fn later_totals_cover_a_snapshot(state: MetricsState, events: Seq<MetricsEvent>)
    requires
        state.totals.latency.len() == BUCKET_COUNT,
        state.totals.attempts + sum(events, attempts_part()) <= u64::MAX,
        state.totals.failures + sum(events, failures_part()) <= u64::MAX,
        state.totals.bytes + sum(events, bytes_part()) <= u64::MAX,
        forall|i: int|
            0 <= i < BUCKET_COUNT ==> #[trigger] state.totals.latency[i] + sum(
                events,
                bucket_part(i),
            ) <= u64::MAX,
    ensures
        after_all(state, events).totals.covers(state.totals),
{
    if state.enabled {
        totals_count_events(state, events);
        let end = after_all(state, events).totals;
        assert forall|i: int| 0 <= i < BUCKET_COUNT implies #[trigger] end.latency[i]
            >= state.totals.latency[i] by {
            assert(state.totals.latency[i] + sum(events, bucket_part(i)) <= u64::MAX);
        }
    } else {
        disabled_totals_stay(state, events);
    }
}

proof fn difference(a: u64, n: nat)
    ensures
        wrapped(a, n as int) >= a ==> wrapped(a, n as int) - a == wrapped(0, n as int),
{
    let m = 0x1_0000_0000_0000_0000int;
    let r = (a + n) % m;
    if r >= a {
        vstd::arithmetic::div_mod::lemma_sub_mod_noop(a + n, a as int, m);
        vstd::arithmetic::div_mod::lemma_small_mod(a as nat, m as nat);
        vstd::arithmetic::div_mod::lemma_small_mod((r - a) as nat, m as nat);
        assert((r - a) % m == n as int % m);
    }
}

/// While metrics are disabled, no event changes the totals.
pub proof fn disabled_totals_stay(state: MetricsState, events: Seq<MetricsEvent>)
    requires
        !state.enabled,
    ensures
        !after_all(state, events).enabled,
        after_all(state, events).totals == state.totals,
    decreases events.len(),
{
    if events.len() > 0 {
        disabled_totals_stay(state, events.drop_last());
    }
}

/// The number of active connections, and whether metrics are enabled, do not depend on the totals.
proof fn active_ignores_totals(state: MetricsState, other: Totals, events: Seq<MetricsEvent>)
    ensures
        after_all(state, events).active == after_all(
            MetricsState { totals: other, ..state },
            events,
        ).active,
        after_all(state, events).enabled == state.enabled,
        after_all(MetricsState { totals: other, ..state }, events).enabled == state.enabled,
    decreases events.len(),
{
    if events.len() > 0 {
        active_ignores_totals(state, other, events.drop_last());
    }
}

proof fn sum_is_monotone(
    events: Seq<MetricsEvent>,
    less: spec_fn(MetricsEvent) -> nat,
    more: spec_fn(MetricsEvent) -> nat,
)
    requires
        forall|e: MetricsEvent| #[trigger] less(e) <= more(e),
    ensures
        sum(events, less) <= sum(events, more),
    decreases events.len(),
{
    if events.len() > 0 {
        sum_is_monotone(events.drop_last(), less, more);
        assert(less(events.last()) <= more(events.last()));
    }
}

/// The boundaries of the buckets go up.
pub proof fn boundaries_are_sorted()
    ensures
        forall|i: int, j: int|
            0 <= i <= j < BUCKET_COUNT - 1 ==> BUCKET_BOUNDARIES_US@[i] <= BUCKET_BOUNDARIES_US@[j],
{
}

/// Starting from no activity, bucket `i` holds the number of observations that count toward it,
/// the buckets never go down from one to the next, and the last one holds the number of all
/// observations.
pub proof fn histogram_is_cumulative(state: MetricsState, events: Seq<MetricsEvent>)
    requires
        state.enabled,
        state.totals == Totals::zero(),
        sum(events, observations_part()) <= u64::MAX,
    ensures
        ({
            let latency = after_all(state, events).totals.latency;
            &&& latency.len() == BUCKET_COUNT
            &&& forall|i: int|
                0 <= i < BUCKET_COUNT ==> #[trigger] latency[i] == sum(events, bucket_part(i))
            &&& forall|i: int, j: int|
                0 <= i <= j < BUCKET_COUNT ==> #[trigger] latency[i] <= #[trigger] latency[j]
            &&& latency[BUCKET_COUNT - 1] == sum(events, observations_part())
        }),
{
    totals_count_events(state, events);
    boundaries_are_sorted();
    let latency = after_all(state, events).totals.latency;
    assert forall|i: int| 0 <= i < BUCKET_COUNT implies #[trigger] latency[i] == sum(
        events,
        bucket_part(i),
    ) by {
        sum_is_monotone(events, bucket_part(i), observations_part());
        assert(state.totals.latency[i] == 0);
    }
    assert forall|i: int, j: int| 0 <= i <= j < BUCKET_COUNT implies #[trigger] latency[i]
        <= #[trigger] latency[j] by {
        assert forall|e: MetricsEvent| #[trigger] bucket_part(i)(e) <= bucket_part(j)(e) by {}
        sum_is_monotone(events, bucket_part(i), bucket_part(j));
    }
    sum_is_monotone(events, observations_part(), bucket_part(BUCKET_COUNT - 1));
    sum_is_monotone(events, bucket_part(BUCKET_COUNT - 1), observations_part());
}

/// A connection that is opened and then closed, or closed and then opened, leaves the metrics as they were.
pub proof fn open_and_close_cancel(state: MetricsState)
    ensures
        state.opened().closed() == state,
        state.closed().opened() == state,
{
    let m = 0x1_0000_0000_0000_0000int;
    let a = state.active as int;
    vstd::arithmetic::div_mod::lemma_small_mod(a as nat, m as nat);
    assert(((a + 1) % m - 1) % m == a) by {
        vstd::arithmetic::div_mod::lemma_sub_mod_noop(a + 1, 1, m);
        vstd::arithmetic::div_mod::lemma_mod_twice(a + 1, m);
        vstd::arithmetic::div_mod::lemma_sub_mod_noop((a + 1) % m, 1, m);
    }
    assert(((a - 1) % m + 1) % m == a) by {
        vstd::arithmetic::div_mod::lemma_add_mod_noop(a - 1, 1, m);
        vstd::arithmetic::div_mod::lemma_mod_twice(a - 1, m);
        vstd::arithmetic::div_mod::lemma_add_mod_noop((a - 1) % m, 1, m);
    }
}

/// 1 for a connection that opens.
pub open spec fn opened_part() -> spec_fn(MetricsEvent) -> nat {
    |e: MetricsEvent| if e is Opened { 1nat } else { 0nat }
}

/// 1 for a connection that closes.
pub open spec fn closed_part() -> spec_fn(MetricsEvent) -> nat {
    |e: MetricsEvent| if e is Closed { 1nat } else { 0nat }
}

/// Whether or not metrics are enabled, the number of active connections is the starting value plus
/// the connections that opened minus those that closed, up to wrapping around.
pub proof fn active_counts_connections(state: MetricsState, events: Seq<MetricsEvent>)
    ensures
        after_all(state, events).active == wrapped(
            state.active,
            sum(events, opened_part()) - sum(events, closed_part()),
        ),
    decreases events.len(),
{
    let m = 0x1_0000_0000_0000_0000int;
    vstd::arithmetic::div_mod::lemma_small_mod(state.active as nat, m as nat);
    if events.len() > 0 {
        let front = events.drop_last();
        active_counts_connections(state, front);
        let a = state.active + (sum(front, opened_part()) - sum(front, closed_part()));
        assert((a % m + 1) % m == (a + 1) % m) by {
            vstd::arithmetic::div_mod::lemma_add_mod_noop(a, 1, m);
            vstd::arithmetic::div_mod::lemma_mod_twice(a, m);
            vstd::arithmetic::div_mod::lemma_add_mod_noop(a % m, 1, m);
        }
        assert((a % m - 1) % m == (a - 1) % m) by {
            vstd::arithmetic::div_mod::lemma_sub_mod_noop(a, 1, m);
            vstd::arithmetic::div_mod::lemma_mod_twice(a, m);
            vstd::arithmetic::div_mod::lemma_sub_mod_noop(a % m, 1, m);
        }
    }
}

/// The boundaries of the buckets: 5, 10 and 25 milliseconds, then ten times each of these, and so on
/// up to ten seconds. Each is larger than the one before.
pub proof fn boundaries_grow_by_tens()
    ensures
        BUCKET_BOUNDARIES_US@.len() == BUCKET_COUNT - 1,
        BUCKET_BOUNDARIES_US@[0] == 5_000,
        BUCKET_BOUNDARIES_US@[1] == 10_000,
        BUCKET_BOUNDARIES_US@[2] == 25_000,
        BUCKET_BOUNDARIES_US@[BUCKET_COUNT - 2] == 10_000_000,
        forall|i: int|
            0 <= i < BUCKET_COUNT - 4 ==> #[trigger] BUCKET_BOUNDARIES_US@[i + 3] == 10
                * BUCKET_BOUNDARIES_US@[i],
        forall|i: int, j: int|
            0 <= i < j < BUCKET_COUNT - 1 ==> BUCKET_BOUNDARIES_US@[i] < BUCKET_BOUNDARIES_US@[j],
{
}

/// 1 for an observation of at most `bound` microseconds.
pub open spec fn at_most(bound: u64) -> spec_fn(MetricsEvent) -> nat {
    |e: MetricsEvent|
        match e {
            MetricsEvent::Observed(duration) => if duration <= bound { 1nat } else { 0nat },
            _ => 0nat,
        }
}

/// In a report that is made after a course of events from no activity, with no total wrapping
/// around, every number is the number of events that it stands for: the connections that are open,
/// the attempts, the failures, the bytes, and for each bucket of the histogram the observations up
/// to its bound, or all of them where it has none.
pub proof fn a_report_counts_events(
    state: MetricsState,
    events: Seq<MetricsEvent>,
    snapshot: &MetricsSnapshot,
)
    requires
        state.enabled,
        state.active == 0,
        state.totals == Totals::zero(),
        0 <= sum(events, opened_part()) - sum(events, closed_part()) <= u64::MAX,
        sum(events, attempts_part()) <= u64::MAX,
        sum(events, failures_part()) <= u64::MAX,
        sum(events, bytes_part()) <= u64::MAX,
        sum(events, observations_part()) <= u64::MAX,
        snapshot.active_connections == after_all(state, events).active,
        snapshot.totals() == after_all(state, events).totals,
    ensures
        ({
            let metrics = reported(snapshot);
            &&& metrics.len() == 5
            &&& metrics[0].name == "tentacle_active_connections"@
            &&& metrics[0].kind == MetricKind::Gauge
            &&& metrics[0].value == sum(events, opened_part()) - sum(events, closed_part())
            &&& metrics[1].name == "tentacle_connection_attempts_total"@
            &&& metrics[1].kind == MetricKind::Counter
            &&& metrics[1].value == sum(events, attempts_part())
            &&& metrics[2].name == "tentacle_connection_failures_total"@
            &&& metrics[2].kind == MetricKind::Counter
            &&& metrics[2].value == sum(events, failures_part())
            &&& metrics[3].name == "tentacle_bytes_transmitted_total"@
            &&& metrics[3].kind == MetricKind::Counter
            &&& metrics[3].value == sum(events, bytes_part())
            &&& metrics[4].name == "tentacle_transport_latency_seconds"@
            &&& metrics[4].kind == MetricKind::Histogram
            &&& forall|k: int| 0 <= k < 4 ==> (#[trigger] metrics[k]).buckets.len() == 0
            &&& metrics[4].buckets.len() == BUCKET_COUNT
            &&& forall|i: int|
                0 <= i < BUCKET_COUNT ==> match (#[trigger] metrics[4].buckets[i]).le_us {
                    Some(bound) => i < BUCKET_COUNT - 1 && bound == BUCKET_BOUNDARIES_US@[i]
                        && metrics[4].buckets[i].count == sum(events, at_most(bound)),
                    None => i == BUCKET_COUNT - 1 && metrics[4].buckets[i].count == sum(
                        events,
                        observations_part(),
                    ),
                }
        }),
{
    totals_count_events(state, events);
    active_counts_connections(state, events);
    histogram_is_cumulative(state, events);
    let metrics = reported(snapshot);
    let latency = after_all(state, events).totals.latency;
    assert(snapshot.totals().latency == latency);
    assert forall|i: int| 0 <= i < BUCKET_COUNT implies match (
    #[trigger] metrics[4].buckets[i]).le_us {
        Some(bound) => i < BUCKET_COUNT - 1 && bound == BUCKET_BOUNDARIES_US@[i]
            && metrics[4].buckets[i].count == sum(events, at_most(bound)),
        None => i == BUCKET_COUNT - 1 && metrics[4].buckets[i].count == sum(
            events,
            observations_part(),
        ),
    } by {
        assert(metrics[4].buckets[i].count == latency[i]);
        if i < BUCKET_COUNT - 1 {
            let bound = BUCKET_BOUNDARIES_US@[i];
            sum_is_monotone(events, bucket_part(i), at_most(bound));
            sum_is_monotone(events, at_most(bound), bucket_part(i));
        }
    }
}

/// One observation counts in exactly those buckets whose bound it does not exceed, and in the last
/// one, which has none.
pub proof fn an_observation_counts_up_to_its_bounds(state: MetricsState, duration: u64)
    requires
        state.enabled,
        state.totals.latency.len() == BUCKET_COUNT,
        forall|i: int|
            0 <= i < BUCKET_COUNT ==> #[trigger] state.totals.latency[i] < u64::MAX,
    ensures
        forall|i: int|
            0 <= i < BUCKET_COUNT - 1 ==> #[trigger] state.observed(duration).totals.latency[i]
                == state.totals.latency[i] + (if duration <= BUCKET_BOUNDARIES_US@[i] {
                1int
            } else {
                0int
            }),
        state.observed(duration).totals.latency[BUCKET_COUNT - 1]
            == state.totals.latency[BUCKET_COUNT - 1] + 1,
        state.observed(duration).totals.attempts == state.totals.attempts,
        state.observed(duration).totals.failures == state.totals.failures,
        state.observed(duration).totals.bytes == state.totals.bytes,
        state.observed(duration).active == state.active,
{
    assert(state.totals.latency[BUCKET_COUNT - 1] < u64::MAX);
}

/// Counting does not lose anything: as long as a total has room, it grows by exactly what is
/// counted.
pub proof fn counting_adds(a: u64, n: nat)
    ensures
        a + n <= u64::MAX ==> wrapped(a, n as int) == a + n,
        n <= a ==> wrapped(a, -(n as int)) == a - n,
{
}

/// What is left after a deduction and what was deducted add up to what there was.
pub proof fn a_deduction_splits_the_totals(totals: Totals, sent: Totals)
    requires
        totals.covers(sent),
    ensures
        totals.less(sent).attempts + sent.attempts == totals.attempts,
        totals.less(sent).failures + sent.failures == totals.failures,
        totals.less(sent).bytes + sent.bytes == totals.bytes,
        totals.less(sent).latency.len() == totals.latency.len(),
        forall|i: int|
            0 <= i < totals.latency.len() ==> #[trigger] totals.less(sent).latency[i]
                + sent.latency[i] == totals.latency[i],
{
    assert forall|i: int| 0 <= i < totals.latency.len() implies #[trigger] totals.less(
        sent,
    ).latency[i] + sent.latency[i] == totals.latency[i] by {
        assert(totals.latency[i] >= sent.latency[i]);
    }
}

/// Deducting all that there is leaves nothing, and a deduction touches neither the number of active
/// connections nor whether metrics are enabled.
pub proof fn a_full_deduction_leaves_nothing(state: MetricsState)
    requires
        state.totals.latency.len() == BUCKET_COUNT,
    ensures
        state.committed(state.totals).totals == Totals::zero(),
        state.committed(state.totals).active == state.active,
        state.committed(state.totals).enabled == state.enabled,
{
    assert(state.committed(state.totals).totals.latency =~= Totals::zero().latency);
}

/// A report is made under the id and service of its snapshot, with its time stamp.
pub proof fn a_report_names_its_sender(payload: MetricPayload, snapshot: &MetricsSnapshot)
    requires
        payload.reports(snapshot),
    ensures
        payload.tentacle_id@ == snapshot.tentacle_id@,
        payload.service@ == snapshot.service@,
        payload.timestamp_ms == snapshot.timestamp_ms,
        payload.metrics@.len() == reported(snapshot).len(),
        forall|k: int|
            0 <= k < payload.metrics@.len() ==> (#[trigger] payload.metrics@[k])@ == reported(
                snapshot,
            )[k],
{
    assert(payload.metric_views().len() == payload.metrics@.len());
    assert forall|k: int| 0 <= k < payload.metrics@.len() implies (
    #[trigger] payload.metrics@[k])@ == reported(snapshot)[k] by {
        assert(payload.metric_views()[k] == payload.metrics@[k]@);
    }
}

/// A time stamp is the number of whole milliseconds since the Unix epoch; a moment before the epoch
/// has the time stamp 0.
pub proof fn time_stamps_are_milliseconds(moment: SystemTime)
    ensures
        match unix_time(moment) {
            Some(elapsed) => nanoseconds(elapsed) / 1_000_000 <= i64::MAX ==> {
                let stamp = time_stamp(moment) as int;
                1_000_000 * stamp <= nanoseconds(elapsed) < 1_000_000 * (stamp + 1)
            },
            None => time_stamp(moment) == 0,
        },
{
}

} // verus!
