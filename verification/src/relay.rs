//! A relay: its current generation, its listener, and its reports.
pub mod listener;
pub mod metadata;

use crate::metrics::{time_stamp, MetricsManager, MetricsSnapshot, MetricsState, Totals};
use crate::path;
use crate::relay::listener::AcceptEvent;
use crate::relay::metadata::Metadata;
use std::sync::Arc;
use std::time::SystemTime;
use tokio::sync::Semaphore;
use vstd::prelude::*;

verus! {

/// A semaphore of `tokio`.
#[verifier::external_type_specification]
#[verifier::external_body]
pub struct ExSemaphore(Semaphore);

/// The number of permits that a semaphore was made with.
pub uninterp spec fn permits(semaphore: Semaphore) -> usize;

/// The largest number of permits that a semaphore can be made with.
pub open spec fn permit_limit() -> usize {
    usize::MAX / 8
}

/// `Semaphore::new`: a semaphore with the given number of permits. It panics beyond
/// `Semaphore::MAX_PERMITS`, an eighth of the largest `usize`.
pub assume_specification[ Semaphore::new ](count: usize) -> (r: Semaphore)
    requires
        count <= permit_limit(),
    ensures
        permits(r) == count,
;

/// The seconds between two probes of a target.
pub const PROBE_INTERVAL_SECS: u64 = 2;

/// The seconds after which a probe counts as failed.
pub const PROBE_TIMEOUT_SECS: u64 = 1;

/// The milliseconds between two looks at whether connections are still in flight.
pub const DRAIN_INTERVAL_MS: u64 = 100;

/// What a relay works with until the next reload: its target, and the pool that caps its
/// connections.
pub struct Generation {
    pub metadata: Metadata,
    pub pool: Arc<Semaphore>,
}

impl Generation {
    /// Whether the pool has as many permits as the target may have connections.
    pub open spec fn well_formed(&self) -> bool {
        permits(*self.pool) == self.metadata.common.max_connections
    }

    /// A generation with a pool of its own.
    pub fn new(metadata: Metadata) -> (r: Self)
        requires
            metadata.common.max_connections <= permit_limit(),
        ensures
            r.metadata == metadata,
            r.well_formed(),
    {
        let pool = Arc::new(Semaphore::new(metadata.common.max_connections));
        Generation { metadata, pool }
    }
}

/// How the renaming of a socket ended.
#[derive(Debug, Clone, Copy, PartialEq, Eq, Structural)]
pub enum RenameOutcome {
    Renamed,
    NotFound,
    Failed,
}

/// What to do with the listener of a relay.
#[derive(Debug)]
pub enum ListenerAction {
    /// Leave it as it is.
    Keep,
    /// Start it.
    Start,
    /// Unlink the socket at this path, then stop the listener.
    Stop(String),
}

/// What to do after a listener saw something.
pub enum AcceptStep {
    /// Serve the connection with this generation, once its pool gives a permit, and go on.
    Serve(Arc<Generation>),
    /// Accept no more connections.
    End,
}

/// What to do when a report is due.
#[derive(Debug)]
pub enum ReportStep {
    /// Make no more reports.
    Stop,
    /// Send the report to the socket at this path; the next one is due after this many seconds.
    Push(String, u64),
}

/// What a report would be: under which id, to which path, and how many seconds before the next.
pub enum ReportPlan {
    Stop,
    Push(Seq<char>, Seq<char>, u64),
}

/// What a relay is.
pub struct RelayView {
    /// The target, as the current generation has it.
    pub metadata: Metadata,
    /// The pool that caps the connections of the current generation.
    pub pool: Semaphore,
    pub metrics: MetricsState,
    /// Whether the listener is running.
    pub listening: bool,
    /// Whether the relay was asked to stop.
    pub stopping: bool,
}

impl RelayView {
    /// Whether the pool has as many permits as the target may have connections.
    pub open spec fn well_formed(self) -> bool {
        permits(self.pool) == self.metadata.common.max_connections
    }

    /// Whether a generation with this metadata uses another socket path.
    pub open spec fn moves_socket(self, metadata: Metadata) -> bool {
        !path::same_components(self.metadata.socket_path@, metadata.socket_path@)
    }

    /// Whether a rotation that needs a renaming is given up.
    pub open spec fn gives_up(self, metadata: Metadata, rename: RenameOutcome) -> bool {
        self.moves_socket(metadata) && rename == RenameOutcome::Failed
    }

    /// The relay with another generation.
    pub open spec fn rotated(self, metadata: Metadata, pool: Semaphore) -> RelayView {
        RelayView { metadata, pool, ..self }
    }

    /// The relay after it was asked to stop.
    pub open spec fn stopped(self) -> RelayView {
        RelayView { stopping: true, ..self }
    }

    /// The relay after its target was probed. The listener runs exactly while the target is
    /// reachable.
    pub open spec fn probed(self, is_alive: bool) -> RelayView {
        RelayView { listening: is_alive, ..self }
    }

    /// The relay after its listener was stopped.
    pub open spec fn silenced(self) -> RelayView {
        RelayView { listening: false, ..self }
    }

    /// The relay with other metrics.
    pub open spec fn measured(self, metrics: MetricsState) -> RelayView {
        RelayView { metrics, ..self }
    }

    /// What a report would be now: none once the relay is to stop; before that, the current
    /// generation says under which id, where to, and how far apart.
    pub open spec fn next_report(self) -> ReportPlan {
        if self.stopping {
            ReportPlan::Stop
        } else {
            ReportPlan::Push(
                self.metadata.socket_id@,
                self.metadata.socket_path@,
                self.metadata.common.metrics_interval_secs,
            )
        }
    }
}

/// A relay to one target.
pub struct Relay {
    generation: Arc<Generation>,
    metrics: MetricsManager,
    listening: bool,
    stopping: bool,
}

impl View for Relay {
    type V = RelayView;

    closed spec fn view(&self) -> RelayView {
        RelayView {
            metadata: self.generation.metadata,
            pool: *self.generation.pool,
            metrics: self.metrics@,
            listening: self.listening,
            stopping: self.stopping,
        }
    }
}

impl Relay {
    /// A relay that is not listening yet.
    pub fn new(metadata: Metadata) -> (r: Self)
        requires
            metadata.common.max_connections <= permit_limit(),
        ensures
            r@.well_formed(),
            r@.metadata == metadata,
            r@.metrics == (MetricsState { enabled: true, active: 0, totals: Totals::zero() }),
            !r@.listening,
            !r@.stopping,
    {
        Relay {
            generation: Arc::new(Generation::new(metadata)),
            metrics: MetricsManager::new(true),
            listening: false,
            stopping: false,
        }
    }

    /// The current generation.
    pub fn generation(&self) -> (r: Arc<Generation>)
        ensures
            r.metadata == self@.metadata,
            *r.pool == self@.pool,
            self@.well_formed() ==> r.well_formed(),
    {
        self.generation.clone()
    }

    /// The metrics, to count with.
    pub fn metrics_mut(&mut self) -> (r: &mut MetricsManager)
        ensures
            (*r)@ == old(self)@.metrics,
            final(self)@ == old(self)@.measured((*final(r))@),
    {
        &mut self.metrics
    }

    /// Whether every total is at least what `snapshot` reports, so that the snapshot can be
    /// deducted.
    pub fn covers(&self, snapshot: &MetricsSnapshot) -> (r: bool)
        ensures
            r == self@.metrics.totals.covers(snapshot.totals()),
    {
        self.metrics.covers(snapshot)
    }

    /// The renaming that has to come before a rotation, from the first path to the second; `None`
    /// where the socket stays where it is.
    pub fn rename_for(&self, metadata: &Metadata) -> (r: Option<(String, String)>)
        ensures
            match r {
                Some((from, to)) => {
                    &&& self@.moves_socket(*metadata)
                    &&& from@ == self@.metadata.socket_path@
                    &&& to@ == metadata.socket_path@
                },
                None => !self@.moves_socket(*metadata),
            },
    {
        let current = &self.generation.metadata.socket_path;
        if path::same_path(current.as_str(), metadata.socket_path.as_str()) {
            None
        } else {
            Some((current.clone(), metadata.socket_path.clone()))
        }
    }

    /// Puts a new generation in place, and says whether it did. Where the socket moves and could
    /// not be renamed, the previous generation stays; `rename` makes no difference where the socket
    /// does not move. The pool is replaced only if its size changes. Connections, metrics and the
    /// listener are not touched. From then on reports are made as the new metadata says.
    pub fn rotate_generation(&mut self, metadata: Metadata, rename: RenameOutcome) -> (r: bool)
        requires
            metadata.common.max_connections <= permit_limit(),
        ensures
            old(self)@.well_formed() ==> final(self)@.well_formed(),
            r == !old(self)@.gives_up(metadata, rename),
            !r ==> final(self)@ == old(self)@,
            r ==> {
                &&& final(self)@ == old(self)@.rotated(metadata, final(self)@.pool)
                &&& if metadata.common.max_connections
                    == old(self)@.metadata.common.max_connections {
                    final(self)@.pool == old(self)@.pool
                } else {
                    permits(final(self)@.pool) == metadata.common.max_connections
                }
            },
            r && !old(self)@.stopping ==> final(self)@.next_report() == ReportPlan::Push(
                metadata.socket_id@,
                metadata.socket_path@,
                metadata.common.metrics_interval_secs,
            ),
    {
        let moves = !path::same_path(
            self.generation.metadata.socket_path.as_str(),
            metadata.socket_path.as_str(),
        );
        if moves && rename == RenameOutcome::Failed {
            return false;
        }
        let pool = if metadata.common.max_connections
            == self.generation.metadata.common.max_connections {
            self.generation.pool.clone()
        } else {
            Arc::new(Semaphore::new(metadata.common.max_connections))
        };
        self.generation = Arc::new(Generation { metadata, pool });
        true
    }

    /// Asks the relay to stop. No report is made from then on; the listener is stopped by
    /// [`Relay::stop_active_listener`], once the request is seen.
    pub fn shutdown(&mut self)
        ensures
            final(self)@ == old(self)@.stopped(),
            final(self)@.next_report() is Stop,
    {
        self.stopping = true;
    }

    /// Whether no connection is in flight any more.
    pub fn is_drained(&self) -> (r: bool)
        ensures
            r == (self@.metrics.active == 0),
    {
        self.metrics.active_connections() == 0
    }

    /// What to do about the listener after the target was probed: it runs exactly while the target
    /// is reachable.
    pub fn on_probe(&mut self, is_alive: bool) -> (r: ListenerAction)
        ensures
            final(self)@ == old(self)@.probed(is_alive),
            match r {
                ListenerAction::Start => is_alive && !old(self)@.listening,
                ListenerAction::Stop(path) => {
                    &&& !is_alive
                    &&& old(self)@.listening
                    &&& path@ == old(self)@.metadata.socket_path@
                },
                ListenerAction::Keep => is_alive == old(self)@.listening,
            },
    {
        if is_alive {
            if self.listening {
                ListenerAction::Keep
            } else {
                self.listening = true;
                ListenerAction::Start
            }
        } else {
            self.stop_active_listener()
        }
    }

    /// Stops the listener if it is running.
    pub fn stop_active_listener(&mut self) -> (r: ListenerAction)
        ensures
            final(self)@ == old(self)@.silenced(),
            match r {
                ListenerAction::Start => false,
                ListenerAction::Stop(path) => {
                    &&& old(self)@.listening
                    &&& path@ == old(self)@.metadata.socket_path@
                },
                ListenerAction::Keep => !old(self)@.listening,
            },
    {
        if self.listening {
            self.listening = false;
            ListenerAction::Stop(self.generation.metadata.socket_path.clone())
        } else {
            ListenerAction::Keep
        }
    }

    /// What to do after a listener saw something: a connection is served with the generation that
    /// is current when it is accepted; a failure or a request to stop ends the accepting.
    pub fn on_accept(&self, event: AcceptEvent) -> (r: AcceptStep)
        ensures
            match r {
                AcceptStep::Serve(generation) => {
                    &&& event == AcceptEvent::Accepted
                    &&& generation.metadata == self@.metadata
                    &&& *generation.pool == self@.pool
                    &&& self@.well_formed() ==> generation.well_formed()
                },
                AcceptStep::End => event != AcceptEvent::Accepted,
            },
    {
        match event {
            AcceptEvent::Accepted => AcceptStep::Serve(self.generation()),
            AcceptEvent::Failed => AcceptStep::End,
            AcceptEvent::Stopped => AcceptStep::End,
        }
    }

    /// What to do when a report is due. Once the relay is to stop, there is none, and `snapshot`
    /// stays as it is. Before that, `snapshot` gets the current metrics under the current socket
    /// id.
    pub fn on_report_tick(&self, snapshot: &mut MetricsSnapshot) -> (r: ReportStep)
        ensures
            self@.stopping ==> r is Stop && *final(snapshot) == *old(snapshot),
            !self@.stopping ==> {
                &&& r matches ReportStep::Push(path, secs) && self@.next_report()
                    == ReportPlan::Push(final(snapshot).tentacle_id@, path@, secs)
                &&& final(snapshot).service == old(snapshot).service
                &&& exists|now: SystemTime|
                    final(snapshot).timestamp_ms == #[trigger] time_stamp(now)
                &&& final(snapshot).active_connections == self@.metrics.active
                &&& final(snapshot).totals() == self@.metrics.totals
            },
    {
        if self.stopping {
            return ReportStep::Stop;
        }
        let path = self.begin_push(snapshot);
        ReportStep::Push(path, self.generation.metadata.common.metrics_interval_secs)
    }

    /// Prepares a report: `snapshot` gets the current metrics under the current socket id. The
    /// report goes to the socket at the path that is returned.
    fn begin_push(&self, snapshot: &mut MetricsSnapshot) -> (r: String)
        ensures
            r@ == self@.metadata.socket_path@,
            final(snapshot).tentacle_id@ == self@.metadata.socket_id@,
            final(snapshot).service == old(snapshot).service,
            exists|now: SystemTime| final(snapshot).timestamp_ms == #[trigger] time_stamp(now),
            final(snapshot).active_connections == self@.metrics.active,
            final(snapshot).totals() == self@.metrics.totals,
    {
        snapshot.tentacle_id = self.generation.metadata.socket_id.clone();
        self.metrics.take_snapshot(snapshot);
        self.generation.metadata.socket_path.clone()
    }

    /// Takes note of whether a report was delivered. One that was not leaves the metrics to
    /// accumulate.
    pub fn finish_push(&mut self, snapshot: &MetricsSnapshot, sent: bool)
        requires
            sent ==> old(self)@.metrics.totals.covers(snapshot.totals()),
        ensures
            final(self)@ == (if sent {
                old(self)@.measured(old(self)@.metrics.committed(snapshot.totals()))
            } else {
                old(self)@
            }),
    {
        if sent {
            self.metrics.commit_sent_metrics(snapshot);
        }
    }
}

/// The seconds between reports, given those so far and those that are configured now. Reports
/// cannot be no time apart, so a configured 0 leaves the interval as it is.
pub fn report_interval(so_far: u64, configured: u64) -> (r: u64)
    ensures
        r == (if configured == 0 {
            so_far
        } else {
            configured
        }),
{
    if configured == 0 {
        so_far
    } else {
        configured
    }
}

/// Something that happens to a relay.
pub enum RelayEvent {
    /// A generation was put in place.
    Rotated(Metadata, Semaphore),
    /// The relay was asked to stop.
    ShutDown,
    /// The target was probed, and was reachable or not.
    Probed(bool),
    /// The listener was stopped.
    Silenced,
    /// The metrics changed.
    Measured(MetricsState),
}

/// The relay after one event, as the functions of [`Relay`] change it.
pub open spec fn after_event(relay: RelayView, event: RelayEvent) -> RelayView {
    match event {
        RelayEvent::Rotated(metadata, pool) => relay.rotated(metadata, pool),
        RelayEvent::ShutDown => relay.stopped(),
        RelayEvent::Probed(is_alive) => relay.probed(is_alive),
        RelayEvent::Silenced => relay.silenced(),
        RelayEvent::Measured(metrics) => relay.measured(metrics),
    }
}

/// The relay after a course of events.
pub open spec fn after_events(relay: RelayView, events: Seq<RelayEvent>) -> RelayView
    decreases events.len(),
{
    if events.len() == 0 {
        relay
    } else {
        after_event(after_events(relay, events.drop_last()), events.last())
    }
}

/// After a relay was asked to stop, whatever happens, no report is made any more.
pub proof fn no_report_follows_shutdown(relay: RelayView, events: Seq<RelayEvent>)
    requires
        relay.stopping,
    ensures
        after_events(relay, events).stopping,
        after_events(relay, events).next_report() is Stop,
    decreases events.len(),
{
    if events.len() > 0 {
        no_report_follows_shutdown(relay, events.drop_last());
    }
}

/// After a rotation, as long as no other rotation and no shutdown follows, reports carry the id of
/// the new metadata, go to its path, and are its interval apart.
pub proof fn reports_follow_the_rotation(
    relay: RelayView,
    metadata: Metadata,
    pool: Semaphore,
    events: Seq<RelayEvent>,
)
    requires
        !relay.stopping,
        forall|i: int|
            0 <= i < events.len() ==> !(#[trigger] events[i] is Rotated) && !(events[i] is ShutDown),
    ensures
        after_events(relay.rotated(metadata, pool), events).next_report() == ReportPlan::Push(
            metadata.socket_id@,
            metadata.socket_path@,
            metadata.common.metrics_interval_secs,
        ),
{
    reports_need_no_other_event(relay.rotated(metadata, pool), events);
}

proof fn reports_need_no_other_event(relay: RelayView, events: Seq<RelayEvent>)
    requires
        forall|i: int|
            0 <= i < events.len() ==> !(#[trigger] events[i] is Rotated) && !(events[i] is ShutDown),
    ensures
        after_events(relay, events).metadata == relay.metadata,
        after_events(relay, events).stopping == relay.stopping,
    decreases events.len(),
{
    if events.len() > 0 {
        let front = events.drop_last();
        assert forall|i: int| 0 <= i < front.len() implies !(#[trigger] front[i] is Rotated) && !(
        front[i] is ShutDown) by {
            assert(front[i] == events[i]);
        }
        reports_need_no_other_event(relay, front);
        assert(events.last() == events[events.len() - 1]);
    }
}

/// A rotation changes the target and the pool, and nothing else: the metrics, and with them the
/// connections in flight, stay, and so do the listener and a request to stop.
pub proof fn rotation_keeps_the_rest(relay: RelayView, metadata: Metadata, pool: Semaphore)
    ensures
        relay.rotated(metadata, pool).metadata == metadata,
        relay.rotated(metadata, pool).pool == pool,
        relay.rotated(metadata, pool).metrics == relay.metrics,
        relay.rotated(metadata, pool).listening == relay.listening,
        relay.rotated(metadata, pool).stopping == relay.stopping,
{
}

/// A rotation is given up exactly if the socket would move and could not be renamed. One that does
/// not move the socket always takes place, and so does one whose socket was not there.
pub proof fn rotation_is_given_up_for_a_failed_move(
    relay: RelayView,
    metadata: Metadata,
    rename: RenameOutcome,
)
    ensures
        relay.gives_up(metadata, rename) <==> rename == RenameOutcome::Failed
            && !path::same_components(relay.metadata.socket_path@, metadata.socket_path@),
        metadata.socket_path@ == relay.metadata.socket_path@ ==> !relay.gives_up(metadata, rename),
        rename == RenameOutcome::NotFound ==> !relay.gives_up(metadata, rename),
        rename == RenameOutcome::Renamed ==> !relay.gives_up(metadata, rename),
{
    path::sameness_is_an_equivalence(
        relay.metadata.socket_path@,
        relay.metadata.socket_path@,
        relay.metadata.socket_path@,
    );
}

/// The listener runs as the last probe says, until it is stopped; nothing else starts or stops it.
/// No event but a measurement touches the metrics, and no event withdraws a request to stop.
pub proof fn events_change_what_they_are_about(relay: RelayView, event: RelayEvent)
    ensures
        after_event(relay, event).listening == (match event {
            RelayEvent::Probed(is_alive) => is_alive,
            RelayEvent::Silenced => false,
            _ => relay.listening,
        }),
        !(event is Measured) ==> after_event(relay, event).metrics == relay.metrics,
        event matches RelayEvent::Measured(m) ==> after_event(relay, event).metrics == m,
        after_event(relay, event).stopping == (relay.stopping || event is ShutDown),
        !(event is Rotated) ==> after_event(relay, event).metadata == relay.metadata && after_event(
            relay,
            event,
        ).pool == relay.pool,
{
}

/// A target is probed every two seconds, and a probe is given up before the next one is due.
pub proof fn probes_come_every_two_seconds()
    ensures
        PROBE_INTERVAL_SECS == 2,
        0 < PROBE_TIMEOUT_SECS < PROBE_INTERVAL_SECS,
{
}

} // verus!
