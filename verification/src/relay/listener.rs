//! The listener of a relay and the connections that it accepts.
use crate::metrics::laws::open_and_close_cancel;
use crate::metrics::{nanoseconds, MetricsManager, MetricsState};
use crate::path;
use std::time::{Duration, Instant};
use vstd::prelude::*;

verus! {

/// A moment on the monotonic clock.
#[verifier::external_type_specification]
#[verifier::external_body]
pub struct ExInstant(Instant);

/// The time from one moment to another.
pub uninterp spec fn between(start: Instant, end: Instant) -> Duration;

/// `Instant::elapsed`: the time from a moment to the moment at which it is asked, under the name
/// `between`. Nothing is claimed of when that is.
pub assume_specification[ Instant::elapsed ](start: &Instant) -> (r: Duration)
    ensures
        exists|now: Instant| r == #[trigger] between(*start, now),
;

/// The microseconds since `start`.
pub fn latency_us(start: Instant) -> (r: u64)
    ensures
        exists|now: Instant| r == (nanoseconds(#[trigger] between(start, now)) / 1_000) as u64,
{
    let elapsed = start.elapsed();
    elapsed.as_micros() as u64
}

/// Counts the time since `start` as a latency.
pub fn report_latency(metrics: &mut MetricsManager, start: Instant)
    ensures
        exists|now: Instant|
            final(metrics)@ == old(metrics)@.observed(
                (nanoseconds(#[trigger] between(start, now)) / 1_000) as u64,
            ),
{
    let latency: u64 = latency_us(start);
    metrics.observe_duration(latency);
}

/// The path that a socket is bound at before it is moved into place: its own path with another
/// extension.
pub fn temp_path(socket_path: &str) -> (r: String)
    ensures
        r@ == path::with_extension(socket_path@, "tmp"@),
{
    path::replace_extension(socket_path, "tmp")
}

/// The socket of a relay is bound in the directory that it belongs to, under its own name with the
/// extension `tmp` in place of `sock`.
pub proof fn sockets_are_bound_in_place(dir: Seq<char>, stem: Seq<char>)
    requires
        stem.len() > 0,
        !stem.contains('/'),
    ensures
        path::with_extension(dir.push('/') + stem + ".sock"@, "tmp"@) == dir.push('/') + stem
            + ".tmp"@,
{
    reveal_strlit(".sock");
    reveal_strlit(".tmp");
    reveal_strlit("tmp");
    let s = dir.push('/') + stem + ".sock"@;
    let start = (dir.len() + 1) as int;
    let dot = start + stem.len();
    assert(path::without_tail(s) == s);
    assert(s.last() == 'k');
    path::name_starts_after(s, start);
    reveal_with_fuel(path::last_dot, 6);
    assert(s[dot] == '.');
    assert(path::last_dot(s, start, s.len() as int) == Some(dot));
    assert(s.skip(start).len() > 2);
    assert(s.take(dot) == dir.push('/') + stem);
    assert(s.take(dot).push('.') + "tmp"@ =~= dir.push('/') + stem + ".tmp"@);
}

/// The file that a listener is bound to: its path, and the device and inode it had when bound.
#[derive(Debug)]
pub struct SocketGuard {
    pub path: String,
    pub dev: u64,
    pub ino: u64,
}

impl SocketGuard {
    /// A guard for the file at `path`.
    pub fn new(path: String, dev: u64, ino: u64) -> (r: Self)
        ensures
            r.path == path,
            r.dev == dev,
            r.ino == ino,
    {
        SocketGuard { path, dev, ino }
    }

    /// Whether the file that is at the path now, given by device and inode, is still the one that
    /// the listener was bound to. `None` means that no file is there.
    pub fn owns_current_file(&self, current: Option<(u64, u64)>) -> (r: bool)
        ensures
            r == (current == Some((self.dev, self.ino))),
    {
        match current {
            Some((dev, ino)) => dev == self.dev && ino == self.ino,
            None => false,
        }
    }
}

/// What an accepting listener may see.
#[derive(Debug, Clone, Copy, PartialEq, Eq, Structural)]
pub enum AcceptEvent {
    Accepted,
    Failed,
    Stopped,
}

/// How far a connection has come.
#[derive(Debug, Clone, Copy, PartialEq, Eq, Structural)]
pub enum Stage {
    /// The target is being dialed.
    Dialing,
    /// The target answered, and the TLS handshake is under way.
    Handshaking,
    /// Bytes are going through.
    Relaying,
    /// The connection is over.
    Closed,
}

/// A connection from a client to the target.
#[derive(Debug)]
pub struct Connection {
    pub stage: Stage,
    pub uses_tls: bool,
}

impl Connection {
    /// Starts a connection: it counts as active and as an attempt.
    pub fn open(metrics: &mut MetricsManager, uses_tls: bool) -> (r: Self)
        ensures
            r.stage == Stage::Dialing,
            r.uses_tls == uses_tls,
            final(metrics)@ == old(metrics)@.opened().attempted(),
    {
        metrics.add_active_connection();
        metrics.add_attempts_total();
        Connection { stage: Stage::Dialing, uses_tls }
    }

    /// Takes note of how dialing ended. With TLS a handshake follows; without it bytes can go
    /// through, and the latency counts. A failure ends the connection.
    pub fn on_dialed(&mut self, metrics: &mut MetricsManager, ok: bool, latency_us: u64)
        requires
            old(self).stage == Stage::Dialing,
        ensures
            final(self).uses_tls == old(self).uses_tls,
            final(self).stage == (if !ok {
                Stage::Closed
            } else if old(self).uses_tls {
                Stage::Handshaking
            } else {
                Stage::Relaying
            }),
            final(metrics)@ == (if !ok {
                old(metrics)@.failed().closed()
            } else if old(self).uses_tls {
                old(metrics)@
            } else {
                old(metrics)@.observed(latency_us)
            }),
            (final(self).stage, final(metrics)@) == after_dial(
                old(metrics)@,
                old(self).uses_tls,
                ok,
                latency_us,
            ),
    {
        if !ok {
            metrics.add_failures_total();
            metrics.remove_active_connection();
            self.stage = Stage::Closed;
        } else if self.uses_tls {
            self.stage = Stage::Handshaking;
        } else {
            metrics.observe_duration(latency_us);
            self.stage = Stage::Relaying;
        }
    }

    /// Takes note of how the TLS handshake ended. A failure ends the connection.
    pub fn on_handshake(&mut self, metrics: &mut MetricsManager, ok: bool, latency_us: u64)
        requires
            old(self).stage == Stage::Handshaking,
        ensures
            final(self).uses_tls == old(self).uses_tls,
            final(self).stage == (if ok {
                Stage::Relaying
            } else {
                Stage::Closed
            }),
            final(metrics)@ == (if ok {
                old(metrics)@.observed(latency_us)
            } else {
                old(metrics)@.failed().closed()
            }),
            (final(self).stage, final(metrics)@) == after_handshake(
                old(metrics)@,
                ok,
                latency_us,
            ),
    {
        if ok {
            metrics.observe_duration(latency_us);
            self.stage = Stage::Relaying;
        } else {
            metrics.add_failures_total();
            metrics.remove_active_connection();
            self.stage = Stage::Closed;
        }
    }

    /// Takes note that no more bytes will go through.
    pub fn on_relayed(&mut self, metrics: &mut MetricsManager)
        requires
            old(self).stage == Stage::Relaying,
        ensures
            final(self).uses_tls == old(self).uses_tls,
            final(self).stage == Stage::Closed,
            final(metrics)@ == old(metrics)@.closed(),
    {
        metrics.remove_active_connection();
        self.stage = Stage::Closed;
    }
}

/// How far a connection is, and the metrics, once dialing has ended.
pub open spec fn after_dial(
    state: MetricsState,
    uses_tls: bool,
    ok: bool,
    latency_us: u64,
) -> (Stage, MetricsState) {
    if !ok {
        (Stage::Closed, state.failed().closed())
    } else if uses_tls {
        (Stage::Handshaking, state)
    } else {
        (Stage::Relaying, state.observed(latency_us))
    }
}

/// How far a connection is, and the metrics, once the TLS handshake has ended.
pub open spec fn after_handshake(state: MetricsState, ok: bool, latency_us: u64) -> (
    Stage,
    MetricsState,
) {
    if ok {
        (Stage::Relaying, state.observed(latency_us))
    } else {
        (Stage::Closed, state.failed().closed())
    }
}

/// How a connection can go.
pub enum Course {
    /// The target cannot be dialed.
    DialFailed,
    /// The TLS handshake fails.
    HandshakeFailed,
    /// Bytes go through, after a latency, with the given numbers of bytes counted on the way.
    Relayed(u64, Seq<u64>),
}

/// The metrics after each of the given numbers of bytes was counted.
pub open spec fn after_bytes(state: MetricsState, bytes: Seq<u64>) -> MetricsState
    decreases bytes.len(),
{
    if bytes.len() == 0 {
        state
    } else {
        after_bytes(state, bytes.drop_last()).transmitted(bytes.last())
    }
}

/// The metrics after a connection has gone its course, as the functions of [`Connection`] keep
/// them.
pub open spec fn after_connection(state: MetricsState, course: Course) -> MetricsState {
    let open = state.opened().attempted();
    match course {
        Course::DialFailed => open.failed().closed(),
        Course::HandshakeFailed => open.failed().closed(),
        Course::Relayed(latency, bytes) => after_bytes(open.observed(latency), bytes).closed(),
    }
}

/// A connection that is over is no longer active, and was counted as one attempt. It counts as a
/// failure, or its latency is observed, but never both.
pub proof fn a_connection_is_accounted_for(state: MetricsState, course: Course)
    ensures
        after_connection(state, course).enabled == state.enabled,
        after_connection(state, course).active == state.active,
        after_connection(state, course).totals.attempts == state.attempted().totals.attempts,
        course is Relayed ==> {
            &&& after_connection(state, course).totals.failures == state.totals.failures
            &&& after_connection(state, course).totals.latency == state.observed(
                course->Relayed_0,
            ).totals.latency
        },
        course !is Relayed ==> {
            &&& after_connection(state, course).totals.failures == state.failed().totals.failures
            &&& after_connection(state, course).totals.latency == state.totals.latency
            &&& after_connection(state, course).totals.bytes == state.totals.bytes
        },
{
    open_and_close_cancel(state);
    if let Course::Relayed(latency, bytes) = course {
        bytes_touch_bytes_only(state.opened().attempted().observed(latency), bytes);
    }
}

proof fn bytes_touch_bytes_only(state: MetricsState, bytes: Seq<u64>)
    ensures
        after_bytes(state, bytes).enabled == state.enabled,
        after_bytes(state, bytes).active == state.active,
        after_bytes(state, bytes).totals.attempts == state.totals.attempts,
        after_bytes(state, bytes).totals.failures == state.totals.failures,
        after_bytes(state, bytes).totals.latency == state.totals.latency,
    decreases bytes.len(),
{
    if bytes.len() > 0 {
        bytes_touch_bytes_only(state, bytes.drop_last());
    }
}

/// The metrics after a connection has gone its course, step by step: opened, dialed, with TLS the
/// handshake, and unless one of these failed, bytes and the end.
pub open spec fn step_by_step(state: MetricsState, uses_tls: bool, course: Course) -> MetricsState {
    let open = state.opened().attempted();
    match course {
        Course::DialFailed => after_dial(open, uses_tls, false, 0).1,
        Course::HandshakeFailed => after_handshake(after_dial(open, true, true, 0).1, false, 0).1,
        Course::Relayed(latency, bytes) => {
            let dialed = after_dial(open, uses_tls, true, latency).1;
            let ready = if uses_tls {
                after_handshake(dialed, true, latency).1
            } else {
                dialed
            };
            after_bytes(ready, bytes).closed()
        },
    }
}

/// With and without TLS, the steps of a connection add up to its course: one attempt, and either one
/// failure or one latency, but not both; afterwards as many connections are active as before.
pub proof fn steps_add_up(state: MetricsState, uses_tls: bool, course: Course)
    requires
        state.enabled,
        state.totals.attempts < u64::MAX,
        state.totals.failures < u64::MAX,
        course is HandshakeFailed ==> uses_tls,
    ensures
        step_by_step(state, uses_tls, course) == after_connection(state, course),
        step_by_step(state, uses_tls, course).active == state.active,
        step_by_step(state, uses_tls, course).totals.attempts == state.totals.attempts + 1,
        step_by_step(state, uses_tls, course).totals.failures == state.totals.failures + (
        if course is Relayed {
            0int
        } else {
            1int
        }),
        course matches Course::Relayed(latency, bytes) ==> step_by_step(
            state,
            uses_tls,
            course,
        ).totals.latency == state.observed(latency).totals.latency && step_by_step(
            state,
            uses_tls,
            course,
        ).totals.bytes == after_bytes(state, bytes).totals.bytes,
{
    a_connection_is_accounted_for(state, course);
    if let Course::Relayed(latency, bytes) = course {
        bytes_depend_on_bytes_only(state, state.opened().attempted().observed(latency), bytes);
    }
}

proof fn bytes_depend_on_bytes_only(a: MetricsState, b: MetricsState, bytes: Seq<u64>)
    requires
        a.enabled == b.enabled,
        a.totals.bytes == b.totals.bytes,
    ensures
        after_bytes(a, bytes).totals.bytes == after_bytes(b, bytes).totals.bytes,
        after_bytes(a, bytes).enabled == after_bytes(b, bytes).enabled,
    decreases bytes.len(),
{
    if bytes.len() > 0 {
        bytes_depend_on_bytes_only(a, b, bytes.drop_last());
    }
}

/// A step that fails ends a connection, one that succeeds does not: without TLS bytes go through
/// after dialing, with TLS after the handshake.
pub proof fn steps_lead_on(state: MetricsState, uses_tls: bool, ok: bool, latency_us: u64)
    ensures
        after_dial(state, uses_tls, ok, latency_us).0 == Stage::Closed <==> !ok,
        after_dial(state, uses_tls, ok, latency_us).0 == Stage::Handshaking <==> ok && uses_tls,
        after_dial(state, uses_tls, ok, latency_us).0 == Stage::Relaying <==> ok && !uses_tls,
        after_handshake(state, ok, latency_us).0 == Stage::Closed <==> !ok,
        after_handshake(state, ok, latency_us).0 == Stage::Relaying <==> ok,
{
}

} // verus!
