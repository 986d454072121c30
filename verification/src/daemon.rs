//! The daemon: which targets are relayed to, and what a reload does about it.
use crate::config::{Config, ConfigView, Target, TargetView};
use crate::names::NumberMap;
use crate::path;
use crate::relay::metadata::{addresses, missing, CommonInfo, Metadata};
use crate::relay::RelayView;
use crate::text;
use crate::tls::{Tls, TlsError};
use std::sync::Arc;
use vstd::prelude::*;
use vstd::string::StringExecFns;

verus! {

/// `addr` with colons and slashes replaced, so that it can be a file name.
pub open spec fn socket_id_of(addr: Seq<char>) -> Seq<char> {
    addr.map_values(|c: char| if c == ':' || c == '/' { '_' } else { c })
}

/// The file name of a target's socket. A weight above 1 is part of it.
pub open spec fn socket_name_of(target: TargetView) -> Seq<char> {
    match target.weight {
        Some(w) => if target.has_weight_in_range() && w > 1 {
            socket_id_of(target.addr) + "@"@ + text::decimal(w as nat) + ".sock"@
        } else {
            socket_id_of(target.addr) + ".sock"@
        },
        None => socket_id_of(target.addr) + ".sock"@,
    }
}

/// The path of a target's socket.
pub open spec fn socket_path_of(
    base_dir: Seq<char>,
    service_name: Seq<char>,
    target: TargetView,
) -> Seq<char> {
    path::joined(path::joined(base_dir, service_name), socket_name_of(target))
}

/// A target with the socket that it will be reached through.
#[derive(Debug)]
pub struct PlannedTarget {
    pub socket_id: String,
    pub socket_path: String,
    pub target: Target,
}

/// What is planned for a target.
#[verifier::ext_equal]
pub struct PlannedView {
    pub socket_id: Seq<char>,
    pub socket_path: Seq<char>,
    pub target: TargetView,
}

impl View for PlannedTarget {
    type V = PlannedView;

    open spec fn view(&self) -> PlannedView {
        PlannedView {
            socket_id: self.socket_id@,
            socket_path: self.socket_path@,
            target: self.target@,
        }
    }
}

/// The plan for one target.
pub open spec fn planned(
    base_dir: Seq<char>,
    service_name: Seq<char>,
    target: TargetView,
) -> PlannedView {
    PlannedView {
        socket_id: socket_id_of(target.addr),
        socket_path: socket_path_of(base_dir, service_name, target),
        target,
    }
}

/// The plans for those targets whose TLS pair is valid, in order.
pub open spec fn planned_targets(config: ConfigView) -> Seq<PlannedView> {
    config.targets.filter(|t: TargetView| t.has_valid_tls_pair()).map_values(
        |t: TargetView| planned(config.base_dir, config.service_name, t),
    )
}

/// The address of a target as a file name.
pub fn socket_id(addr: &str) -> (r: String)
    ensures
        r@ == socket_id_of(addr@),
{
    let mut r = String::new();
    for c in it: addr.chars()
        invariant
            it.seq() == addr@,
            r@ == socket_id_of(addr@.take(it.index() as int)),
    {
        let ghost i = it.index() as int;
        let ghost before = r@;
        if c == ':' || c == '/' {
            r.push('_');
        } else {
            r.push(c);
        }
        assert(addr@.take(i + 1) == addr@.take(i).push(c));
        assert(r@ == socket_id_of(addr@.take(i + 1)));
    }
    assert(addr@.take(addr@.len() as int) == addr@);
    r
}

/// The file name of a target's socket.
pub fn socket_name(target: &Target) -> (r: String)
    ensures
        r@ == socket_name_of(target@),
{
    let mut r = socket_id(target.addr.as_str());
    match target.weight {
        Some(weight) => {
            if target.weight_in_range() && weight > 1 {
                r.append("@");
                text::push_decimal(&mut r, weight);
            }
        },
        None => {},
    }
    r.append(".sock");
    r
}

/// What all relays have in common, and the plan for each target. Targets with only one of client
/// certificate and key are left out.
pub fn expand_targets(config: Config) -> (r: (Arc<CommonInfo>, Vec<PlannedTarget>))
    ensures
        r.0.max_connections == config.max_connections,
        r.0.service_name == config.service_name,
        r.0.metrics_interval_secs == config.metrics_interval_secs,
        r.1@.map_values(|p: PlannedTarget| p@) == planned_targets(config@),
{
    let ghost view = config@;
    let Config { service_name, targets, base_dir, max_connections, metrics_interval_secs } = config;
    let ghost all = view.targets;
    let ghost keep = |t: TargetView| t.has_valid_tls_pair();
    let ghost plan = |t: TargetView| planned(base_dir@, service_name@, t);
    let service_dir = path::join(base_dir.as_str(), service_name.as_str());
    let mut planned_list: Vec<PlannedTarget> = Vec::new();
    proof {
        reveal(Seq::filter);
        assert(planned_list@.map_values(|p: PlannedTarget| p@) == all.take(0).filter(
            keep,
        ).map_values(plan));
    }
    for target in it: targets
        invariant
            all == it.seq().map_values(|t: Target| t@),
            keep == (|t: TargetView| t.has_valid_tls_pair()),
            plan == (|t: TargetView| planned(base_dir@, service_name@, t)),
            service_dir@ == path::joined(base_dir@, service_name@),
            planned_list@.map_values(|p: PlannedTarget| p@) == all.take(
                it.index() as int,
            ).filter(keep).map_values(plan),
    {
        let ghost i = it.index() as int;
        let ghost before = all.take(i).filter(keep);
        let ghost list = planned_list@.map_values(|p: PlannedTarget| p@);
        proof {
            reveal(Seq::filter);
            assert(all[i] == target@);
            assert(all.take(i + 1).drop_last() == all.take(i));
            assert(all.take(i + 1).last() == target@);
        }
        if target.tls_pair_is_valid() {
            let socket_id = socket_id(target.addr.as_str());
            let socket_path = path::join(service_dir.as_str(), socket_name(&target).as_str());
            let next = PlannedTarget { socket_id, socket_path, target };
            let ghost next_view = next@;
            planned_list.push(next);
            proof {
                assert(next_view == plan(all[i]));
                assert(planned_list@.map_values(|p: PlannedTarget| p@) == list.push(next_view));
                assert(before.push(all[i]).map_values(plan) == before.map_values(plan).push(
                    plan(all[i]),
                ));
            }
        }
    }
    proof {
        assert(all.take(all.len() as int) == all);
    }
    let common = CommonInfo { max_connections, service_name, metrics_interval_secs };
    (Arc::new(common), planned_list)
}

/// The metadata of a planned target, once its TLS is known.
pub fn metadata_for(
    common: &Arc<CommonInfo>,
    socket_id: String,
    socket_path: String,
    target_addr: String,
    target_tls: Tls,
) -> (r: Metadata)
    ensures
        r.common == *common,
        r.socket_id == socket_id,
        r.socket_path == socket_path,
        r.target_addr == target_addr,
        r.target_tls == target_tls,
{
    Metadata { common: common.clone(), socket_id, socket_path, target_addr, target_tls }
}

/// What the targets come to, given what fetching the TLS of each came to: the first problem, or the
/// metadata of all of them, in order.
pub open spec fn assembled(
    common: Arc<CommonInfo>,
    planned: Seq<PlannedTarget>,
    fetched: Seq<Result<(String, Tls), TlsError>>,
) -> Result<Seq<Metadata>, TlsError>
    decreases fetched.len(),
{
    if fetched.len() == 0 {
        Ok(Seq::empty())
    } else {
        match assembled(common, planned, fetched.drop_last()) {
            Err(e) => Err(e),
            Ok(list) => match fetched.last() {
                Err(e) => Err(e),
                Ok((target_addr, target_tls)) => Ok(
                    list.push(
                        Metadata {
                            common,
                            socket_id: planned[fetched.len() - 1].socket_id,
                            socket_path: planned[fetched.len() - 1].socket_path,
                            target_addr,
                            target_tls,
                        },
                    ),
                ),
            },
        }
    }
}

proof fn first_failure_decides(
    common: Arc<CommonInfo>,
    planned: Seq<PlannedTarget>,
    fetched: Seq<Result<(String, Tls), TlsError>>,
    n: int,
)
    requires
        0 <= n <= fetched.len(),
        assembled(common, planned, fetched.take(n)) is Err,
    ensures
        assembled(common, planned, fetched) == assembled(common, planned, fetched.take(n)),
    decreases fetched.len() - n,
{
    if n == fetched.len() {
        assert(fetched.take(n) == fetched);
    } else {
        assert(fetched.take(n + 1).drop_last() == fetched.take(n));
        first_failure_decides(common, planned, fetched, n + 1);
    }
}

/// The metadata of the planned targets, given what fetching the TLS of each came to. A failure for
/// one target is a failure for all; nothing needs to be fetched behind it.
pub fn metadatas_from(
    common: &Arc<CommonInfo>,
    planned: Vec<PlannedTarget>,
    fetched: Vec<Result<(String, Tls), TlsError>>,
) -> (r: Result<Vec<Metadata>, TlsError>)
    requires
        fetched.len() <= planned.len(),
        fetched.len() == planned.len() || exists|i: int|
            0 <= i < fetched.len() && #[trigger] fetched[i] is Err,
    ensures
        match assembled(*common, planned@, fetched@) {
            Ok(list) => r matches Ok(v) && v@ == list && v.len() == planned.len(),
            Err(e) => r matches Err(f) && f == e,
        },
        r is Err <==> exists|i: int| 0 <= i < fetched.len() && #[trigger] fetched[i] is Err,
{
    let ghost results = fetched@;
    let mut list: Vec<Metadata> = Vec::new();
    let mut i: usize = 0;
    assert(list@ == Seq::<Metadata>::empty());
    for result in it: fetched
        invariant
            it.seq() == results,
            it.index() == i,
            results.len() <= planned.len(),
            list@.len() == i,
            forall|j: int| 0 <= j < i ==> #[trigger] results[j] is Ok,
            assembled(*common, planned@, results.take(i as int)) == Ok::<Seq<Metadata>, TlsError>(
                list@,
            ),
    {
        proof {
            assert(results[i as int] == result);
            assert(results.take(i + 1).drop_last() == results.take(i as int));
            assert(results.take(i + 1).last() == result);
        }
        let (target_addr, target_tls) = match result {
            Ok(pair) => pair,
            Err(e) => {
                proof {
                    first_failure_decides(*common, planned@, results, i + 1);
                }
                return Err(e);
            },
        };
        let socket_id = planned[i].socket_id.clone();
        let socket_path = planned[i].socket_path.clone();
        list.push(metadata_for(common, socket_id, socket_path, target_addr, target_tls));
        i += 1;
    }
    assert(results.take(results.len() as int) == results);
    Ok(list)
}

/// Where every fetch succeeded, each target has the socket that was planned for it, with the address
/// and the TLS that were fetched for it, in order.
pub proof fn assembled_in_order(
    common: Arc<CommonInfo>,
    planned: Seq<PlannedTarget>,
    fetched: Seq<Result<(String, Tls), TlsError>>,
)
    requires
        assembled(common, planned, fetched) is Ok,
    ensures
        ({
            let list = assembled(common, planned, fetched)->Ok_0;
            &&& list.len() == fetched.len()
            &&& forall|i: int|
                0 <= i < list.len() ==> fetched[i] is Ok && #[trigger] list[i] == (Metadata {
                    common,
                    socket_id: planned[i].socket_id,
                    socket_path: planned[i].socket_path,
                    target_addr: fetched[i]->Ok_0.0,
                    target_tls: fetched[i]->Ok_0.1,
                })
        }),
    decreases fetched.len(),
{
    if fetched.len() > 0 {
        let front = fetched.drop_last();
        assembled_in_order(common, planned, front);
        let list = assembled(common, planned, fetched)->Ok_0;
        let before = assembled(common, planned, front)->Ok_0;
        assert forall|i: int| 0 <= i < list.len() implies fetched[i] is Ok && #[trigger] list[i] == (
        Metadata {
            common,
            socket_id: planned[i].socket_id,
            socket_path: planned[i].socket_path,
            target_addr: fetched[i]->Ok_0.0,
            target_tls: fetched[i]->Ok_0.1,
        }) by {
            if i < front.len() {
                assert(front[i] == fetched[i]);
                assert(list[i] == before[i]);
            }
        }
    }
}

/// A configuration in which no target has half a TLS pair comes to one relay for each target, in
/// order, at the target's address and under the socket path that its address and weight give; all
/// of them share what they have in common.
pub proof fn targets_become_relays(
    config: ConfigView,
    common: Arc<CommonInfo>,
    plans: Seq<PlannedTarget>,
    fetched: Seq<Result<(String, Tls), TlsError>>,
)
    requires
        forall|i: int|
            0 <= i < config.targets.len() ==> (#[trigger] config.targets[i]).has_valid_tls_pair(),
        plans.map_values(|p: PlannedTarget| p@) == planned_targets(config),
        fetched.len() == plans.len(),
        forall|i: int|
            0 <= i < fetched.len() ==> (#[trigger] fetched[i] matches Ok((addr, _)) ==> addr
                == plans[i].target.addr),
        assembled(common, plans, fetched) is Ok,
    ensures
        ({
            let list = assembled(common, plans, fetched)->Ok_0;
            &&& list.len() == config.targets.len()
            &&& forall|i: int|
                0 <= i < list.len() ==> {
                    let target = config.targets[i];
                    &&& (#[trigger] list[i]).common == common
                    &&& list[i].target_addr@ == target.addr
                    &&& list[i].socket_id@ == socket_id_of(target.addr)
                    &&& list[i].socket_path@ == socket_path_of(
                        config.base_dir,
                        config.service_name,
                        target,
                    )
                }
        }),
{
    let keep = |t: TargetView| t.has_valid_tls_pair();
    let plan = |t: TargetView| planned(config.base_dir, config.service_name, t);
    all_are_kept(config.targets, keep);
    assert(planned_targets(config) == config.targets.map_values(plan));
    assembled_in_order(common, plans, fetched);
    let list = assembled(common, plans, fetched)->Ok_0;
    assert(plans.map_values(|p: PlannedTarget| p@).len() == config.targets.len());
    assert forall|i: int| 0 <= i < list.len() implies {
        let target = config.targets[i];
        &&& (#[trigger] list[i]).common == common
        &&& list[i].target_addr@ == target.addr
        &&& list[i].socket_id@ == socket_id_of(target.addr)
        &&& list[i].socket_path@ == socket_path_of(config.base_dir, config.service_name, target)
    } by {
        assert(plans.map_values(|p: PlannedTarget| p@)[i] == plan(config.targets[i]));
        assert(plans[i]@ == plan(config.targets[i]));
        assert(fetched[i] is Ok);
    }
}

proof fn all_are_kept(targets: Seq<TargetView>, keep: spec_fn(TargetView) -> bool)
    requires
        forall|i: int| 0 <= i < targets.len() ==> keep(#[trigger] targets[i]),
    ensures
        targets.filter(keep) == targets,
    decreases targets.len(),
{
    reveal(Seq::filter);
    if targets.len() > 0 {
        let front = targets.drop_last();
        assert forall|i: int| 0 <= i < front.len() implies keep(#[trigger] front[i]) by {
            assert(front[i] == targets[i]);
        }
        all_are_kept(front, keep);
        assert(keep(targets[targets.len() - 1]));
        assert(targets == front.push(targets.last()));
    }
}

/// The weight that a target is reached with: 1 where none is given, or one that is out of range.
pub open spec fn effective_weight(target: TargetView) -> u32 {
    match target.weight {
        Some(w) => if target.has_weight_in_range() {
            w
        } else {
            1
        },
        None => 1,
    }
}

/// The name of a target's socket tells the weight: for one address, different weights have
/// different names, and an omitted weight counts as 1.
pub proof fn socket_name_tells_weight(a: TargetView, b: TargetView)
    requires
        a.addr == b.addr,
    ensures
        socket_name_of(a) == socket_name_of(b) <==> effective_weight(a) == effective_weight(b),
{
    let id = socket_id_of(a.addr);
    let end = ".sock"@;
    reveal_strlit("@");
    assert("@"@ == seq!['@']);
    let x = weight_suffix(effective_weight(a));
    let y = weight_suffix(effective_weight(b));
    assert(socket_name_of(a) =~= id + x + end);
    assert(socket_name_of(b) =~= id + y + end);
    if socket_name_of(a) == socket_name_of(b) {
        assert(x == (id + x + end).subrange(id.len() as int, (id.len() + x.len()) as int));
        assert(y == (id + y + end).subrange(id.len() as int, (id.len() + y.len()) as int));
        assert((id + x + end).len() == (id + y + end).len());
        assert(x == y);
        text::decimal_parses_back(effective_weight(a) as nat);
        text::decimal_parses_back(effective_weight(b) as nat);
        if effective_weight(a) > 1 && effective_weight(b) > 1 {
            assert(x.skip(1) == text::decimal(effective_weight(a) as nat));
            assert(y.skip(1) == text::decimal(effective_weight(b) as nat));
        }
    }
}

spec fn weight_suffix(weight: u32) -> Seq<char> {
    if weight > 1 {
        seq!['@'] + text::decimal(weight as nat)
    } else {
        Seq::empty()
    }
}

/// A target is planned for exactly if its TLS pair is valid: one that has only a certificate or only
/// a key is left out, whatever the other targets are.
pub proof fn half_a_tls_pair_is_skipped(config: ConfigView, target: TargetView)
    ensures
        (exists|i: int|
            0 <= i < planned_targets(config).len() && (#[trigger] planned_targets(config)[i]).target
                == target) <==> config.targets.contains(target) && target.has_valid_tls_pair(),
{
    let keep = |t: TargetView| t.has_valid_tls_pair();
    let plan = |t: TargetView| planned(config.base_dir, config.service_name, t);
    let kept = config.targets.filter(keep);
    assert(planned_targets(config) == kept.map_values(plan));
    if exists|i: int|
        0 <= i < planned_targets(config).len() && (#[trigger] planned_targets(config)[i]).target
            == target {
        let i = choose|i: int|
            0 <= i < planned_targets(config).len() && (#[trigger] planned_targets(config)[i]).target
                == target;
        assert(kept[i] == target);
        config.targets.lemma_filter_pred(keep, i);
        assert(kept.contains(target));
        config.targets.lemma_filter_contains_rev(keep, target);
    }
    if config.targets.contains(target) && target.has_valid_tls_pair() {
        let j = choose|j: int| 0 <= j < config.targets.len() && config.targets[j] == target;
        config.targets.lemma_filter_contains(keep, j);
        let i = choose|i: int| 0 <= i < kept.len() && kept[i] == target;
        assert(planned_targets(config)[i].target == target);
    }
}

/// What to do with a relay. Relays are given by the number that they were started under, targets by
/// their position in the list of the last reload.
#[derive(Debug)]
pub enum RelayAction {
    /// Stop the relay with this number.
    Shutdown(usize),
    /// Hand the relay with the second number the new metadata of the target at the first.
    Rotate(usize, usize),
    /// Start a relay to the target at the first number, under the second number.
    Spawn(usize, usize),
}

/// What to do with a relay, in mathematical numbers.
pub enum ActionView {
    Shutdown(nat),
    Rotate(int, nat),
    Spawn(int, nat),
}

impl View for RelayAction {
    type V = ActionView;

    open spec fn view(&self) -> ActionView {
        match *self {
            RelayAction::Shutdown(n) => ActionView::Shutdown(n as nat),
            RelayAction::Rotate(i, n) => ActionView::Rotate(i as int, n as nat),
            RelayAction::Spawn(i, n) => ActionView::Spawn(i as int, n as nat),
        }
    }
}

/// The views of a sequence of actions.
pub open spec fn action_views(v: Seq<RelayAction>) -> Seq<ActionView> {
    v.map_values(|a: RelayAction| a@)
}

/// The relays that are left, and what was done, after the relays to `stale` addresses were stopped.
pub open spec fn after_stopping(relays: Map<Seq<char>, nat>, stale: Seq<Seq<char>>) -> (
    Map<Seq<char>, nat>,
    Seq<ActionView>,
)
    decreases stale.len(),
{
    if stale.len() == 0 {
        (relays, Seq::empty())
    } else {
        let (left, done) = after_stopping(relays, stale.drop_last());
        if left.contains_key(stale.last()) {
            (left.remove(stale.last()), done.push(ActionView::Shutdown(left[stale.last()])))
        } else {
            (left, done)
        }
    }
}

/// The relays that there are, the next free number, and what was done, after each of `wanted` was
/// rotated or started.
pub open spec fn after_starting(
    relays: Map<Seq<char>, nat>,
    next: nat,
    wanted: Seq<Seq<char>>,
) -> (Map<Seq<char>, nat>, nat, Seq<ActionView>)
    decreases wanted.len(),
{
    if wanted.len() == 0 {
        (relays, next, Seq::empty())
    } else {
        let (there, free, done) = after_starting(relays, next, wanted.drop_last());
        let i = wanted.len() - 1;
        if there.contains_key(wanted.last()) {
            (there, free, done.push(ActionView::Rotate(i, there[wanted.last()])))
        } else {
            (there.insert(wanted.last(), free), free + 1, done.push(ActionView::Spawn(i, free)))
        }
    }
}

/// What the daemon knows.
#[verifier::ext_equal]
pub struct DaemonView {
    /// The relays that are running: their numbers, by the addresses that they relay to.
    pub relays: Map<Seq<char>, nat>,
    /// The numbers of the relays that may still have connections in flight, running or not.
    pub undrained: Set<nat>,
    /// How many relays were ever started. They have the numbers below it.
    pub spawned: nat,
    /// The targets of the last reload that succeeded.
    pub current: Seq<Metadata>,
    /// Whether any reload has succeeded.
    pub bootstrapped: bool,
}

impl DaemonView {
    /// A daemon without targets.
    pub open spec fn empty() -> DaemonView {
        DaemonView {
            relays: Map::empty(),
            undrained: Set::empty(),
            spawned: 0,
            current: Seq::empty(),
            bootstrapped: false,
        }
    }

    /// Whether the relay with this number is running.
    pub open spec fn is_running(self, n: nat) -> bool {
        self.relays.contains_value(n)
    }

    /// Whether every running relay counts as possibly having connections, no two addresses share a
    /// relay, and all numbers were given out.
    pub open spec fn well_formed(self) -> bool {
        &&& forall|n: nat| #[trigger] self.undrained.contains(n) ==> n < self.spawned
        &&& forall|a: Seq<char>| #[trigger]
            self.relays.contains_key(a) ==> self.undrained.contains(self.relays[a])
        &&& has_distinct_numbers(self.relays)
    }

    /// Whether there are relays to the current targets and to no others.
    pub open spec fn in_step(self) -> bool {
        self.relays.dom() == addresses(self.current).to_set()
    }

    /// The daemon after a reload, and what was done.
    pub open spec fn reloaded(self, new: Seq<Metadata>) -> (DaemonView, Seq<ActionView>) {
        let (left, stopped) = after_stopping(self.relays, addresses(missing(self.current, new)));
        let (there, free, started) = after_starting(left, self.spawned, addresses(new));
        (
            DaemonView {
                relays: there,
                undrained: with_numbers(self.undrained, self.spawned, free),
                spawned: free,
                current: new,
                bootstrapped: true,
            },
            stopped + started,
        )
    }

    /// The daemon after all relays were told to stop.
    pub open spec fn ended(self) -> DaemonView {
        DaemonView { relays: Map::empty(), ..self }
    }

    /// The daemon after the relay with this number was found without connections. That counts only
    /// for one that is not running, since a running one can get new connections.
    pub open spec fn drained(self, n: nat) -> DaemonView {
        if self.is_running(n) {
            self
        } else {
            DaemonView { undrained: self.undrained.remove(n), ..self }
        }
    }
}

/// A set of numbers with those from `start` up to `end` added.
pub open spec fn with_numbers(s: Set<nat>, start: nat, end: nat) -> Set<nat> {
    s.union(Set::new(|n: nat| start <= n < end))
}

/// Whether different names have different numbers.
pub open spec fn has_distinct_numbers(m: Map<Seq<char>, nat>) -> bool {
    forall|a: Seq<char>, b: Seq<char>|
        #![trigger m.contains_key(a), m.contains_key(b)]
        m.contains_key(a) && m.contains_key(b) && m[a] == m[b] ==> a == b
}

/// A signal to the daemon.
#[derive(Debug, Clone, Copy, PartialEq, Eq, Structural)]
pub enum Signal {
    Interrupt,
    Terminate,
    Hangup,
}

/// The targets that the daemon relays to, and the relays that it waits for.
pub struct Daemon {
    relays: NumberMap,
    /// For each relay that was ever started, whether it may still have connections.
    undrained: Vec<bool>,
    current: Vec<Metadata>,
    bootstrapped: bool,
}

spec fn marked(flags: Seq<bool>) -> Set<nat> {
    Set::new(|n: nat| n < flags.len() && flags[n as int])
}

impl View for Daemon {
    type V = DaemonView;

    closed spec fn view(&self) -> DaemonView {
        DaemonView {
            relays: self.relays@,
            undrained: marked(self.undrained@),
            spawned: self.undrained@.len(),
            current: self.current@,
            bootstrapped: self.bootstrapped,
        }
    }
}

impl Daemon {
    /// A daemon without targets.
    pub fn new() -> (r: Self)
        ensures
            r@ == DaemonView::empty(),
            r@.well_formed(),
            r@.in_step(),
    {
        let r = Daemon {
            relays: NumberMap::new(),
            undrained: Vec::new(),
            current: Vec::new(),
            bootstrapped: false,
        };
        assert(r@ =~= DaemonView::empty());
        assert(addresses(r@.current).to_set() =~= Set::<Seq<char>>::empty());
        assert(r@.relays.dom() =~= Set::<Seq<char>>::empty());
        r
    }

    /// The target at a position in the list of the last reload; `None` beyond its end.
    pub fn target(&self, i: usize) -> (r: Option<&Metadata>)
        ensures
            match r {
                Some(m) => i < self@.current.len() && *m == self@.current[i as int],
                None => i >= self@.current.len(),
            },
    {
        if i < self.current.len() {
            Some(&self.current[i])
        } else {
            None
        }
    }

    /// Puts a freshly loaded list of targets in place, and says what to do with the relays, in
    /// order: stop those to targets that are gone, hand those to targets that stay their new
    /// metadata, and start those to targets that are new. A relay that is stopped is still waited
    /// for.
    pub fn apply(&mut self, metadatas: Vec<Metadata>) -> (r: Vec<RelayAction>)
        ensures
            (final(self)@, action_views(r@)) == old(self)@.reloaded(metadatas@),
            old(self)@.in_step() ==> final(self)@.in_step(),
            old(self)@.well_formed() ==> final(self)@.well_formed(),
    {
        let mut actions: Vec<RelayAction> = Vec::new();
        let ghost before_all = self@;
        let ghost gone = missing(self.current@, metadatas@);
        let ghost stale_addrs = addresses(gone);
        let stale = Metadata::missing_targets(self.current.as_slice(), metadatas.as_slice());
        let mut i: usize = 0;
        assert(after_stopping(self.relays@, stale_addrs.take(0)) == (
            self.relays@,
            action_views(actions@),
        ));
        while i < stale.len()
            invariant
                i <= stale.len(),
                self.current == old(self).current,
                self.undrained == old(self).undrained,
                stale@.map_values(|m: &Metadata| *m) == gone,
                stale_addrs == addresses(gone),
                after_stopping(old(self).relays@, stale_addrs.take(i as int)) == (
                    self.relays@,
                    action_views(actions@),
                ),
            decreases stale.len() - i,
        {
            let ghost before = action_views(actions@);
            proof {
                assert(stale@.map_values(|m: &Metadata| *m)[i as int] == gone[i as int]);
                assert(stale_addrs.take(i + 1).drop_last() == stale_addrs.take(i as int));
                assert(stale_addrs.take(i + 1).last() == stale@[i as int].target_addr@);
            }
            let ghost there = self.relays@;
            match self.relays.remove(stale[i].target_addr.as_str()) {
                Some(n) => {
                    actions.push(RelayAction::Shutdown(n));
                    assert(action_views(actions@) == before.push(ActionView::Shutdown(n as nat)));
                },
                None => {
                    assert(self.relays@ =~= there);
                },
            }
            i += 1;
        }
        let ghost stopped = action_views(actions@);
        let ghost left = self.relays@;
        let ghost flags = self.undrained@;
        let ghost wanted = addresses(metadatas@);
        proof {
            assert(stale_addrs.take(stale_addrs.len() as int) == stale_addrs);
            assert(action_views(actions@) == stopped + after_starting(
                left,
                flags.len(),
                wanted.take(0),
            ).2);
        }
        let mut j: usize = 0;
        while j < metadatas.len()
            invariant
                j <= metadatas.len(),
                wanted == addresses(metadatas@),
                self.undrained@.len() >= flags.len(),
                self.undrained@.take(flags.len() as int) == flags,
                forall|k: int|
                    flags.len() <= k < self.undrained@.len() ==> #[trigger] self.undrained@[k],
                self.relays@ == after_starting(left, flags.len(), wanted.take(j as int)).0,
                self.undrained@.len() == after_starting(
                    left,
                    flags.len(),
                    wanted.take(j as int),
                ).1,
                action_views(actions@) == stopped + after_starting(
                    left,
                    flags.len(),
                    wanted.take(j as int),
                ).2,
            decreases metadatas.len() - j,
        {
            let ghost before = action_views(actions@);
            proof {
                assert(wanted.take(j + 1).drop_last() == wanted.take(j as int));
                assert(wanted.take(j + 1).last() == metadatas@[j as int].target_addr@);
            }
            match self.relays.get(metadatas[j].target_addr.as_str()) {
                Some(n) => {
                    actions.push(RelayAction::Rotate(j, n));
                    assert(action_views(actions@) == before.push(
                        ActionView::Rotate(j as int, n as nat),
                    ));
                },
                None => {
                    let n: usize = self.undrained.len();
                    self.undrained.push(true);
                    self.relays.insert(metadatas[j].target_addr.as_str(), n);
                    actions.push(RelayAction::Spawn(j, n));
                    assert(action_views(actions@) == before.push(
                        ActionView::Spawn(j as int, n as nat),
                    ));
                    assert(self.undrained@.take(flags.len() as int) =~= flags);
                },
            }
            j += 1;
        }
        self.current = metadatas;
        self.bootstrapped = true;
        proof {
            assert(wanted.take(wanted.len() as int) == wanted);
            let free = self.undrained@.len();
            assert forall|n: nat| #[trigger]
                marked(self.undrained@).contains(n) == with_numbers(
                    marked(flags),
                    flags.len(),
                    free,
                ).contains(n) by {
                if n < flags.len() {
                    assert(self.undrained@.take(flags.len() as int)[n as int]
                        == self.undrained@[n as int]);
                }
            }
            assert(marked(self.undrained@) =~= with_numbers(marked(flags), flags.len(), free));
            if before_all.in_step() {
                reload_keeps_in_step(before_all, self.current@);
            }
            if before_all.well_formed() {
                reload_keeps_well_formed(before_all, self.current@);
            }
        }
        actions
    }

    /// Tells every running relay to stop, each once. They are all still waited for.
    pub fn on_end(&mut self) -> (r: Vec<RelayAction>)
        ensures
            final(self)@ == old(self)@.ended(),
            forall|k: int| 0 <= k < r@.len() ==> #[trigger] action_views(r@)[k] is Shutdown,
            forall|n: nat| #[trigger]
                action_views(r@).contains(ActionView::Shutdown(n)) <==> old(self)@.is_running(n),
            old(self)@.well_formed() ==> action_views(r@).no_duplicates(),
            old(self)@.well_formed() ==> final(self)@.well_formed(),
    {
        let mut actions: Vec<RelayAction> = Vec::new();
        let ghost all = self.relays@;
        let ghost others = *self;
        loop
            invariant
                self.undrained == others.undrained,
                self.current == others.current,
                self.bootstrapped == others.bootstrapped,
                stopping_all(all, self.relays@, action_views(actions@)),
            ensures
                self.relays@ == Map::<Seq<char>, nat>::empty(),
            decreases self.relays.size(),
        {
            let ghost left = self.relays@;
            let ghost done = action_views(actions@);
            match self.relays.pop() {
                Some((name, n)) => {
                    actions.push(RelayAction::Shutdown(n));
                    proof {
                        assert(action_views(actions@) == done.push(ActionView::Shutdown(n as nat)));
                        one_more_is_stopped(all, left, done, name@);
                    }
                },
                None => break,
            }
        }
        proof {
            let done = action_views(actions@);
            assert forall|n: nat| #[trigger]
                done.contains(ActionView::Shutdown(n)) <==> all.contains_value(n) by {
                if done.contains(ActionView::Shutdown(n)) {
                    let k = choose|k: int| 0 <= k < done.len() && done[k] == ActionView::Shutdown(n);
                    assert(is_stopped(all, self.relays@, done[k]));
                }
                if all.contains_value(n) {
                    let a = choose|a: Seq<char>| #[trigger] all.dom().contains(a) && all[a] == n;
                    assert(all.contains_key(a));
                }
            }
            assert forall|k: int| 0 <= k < actions@.len() implies #[trigger] done[k] is Shutdown by {
                assert(is_stopped(all, self.relays@, done[k]));
            }
        }
        actions
    }

    /// Takes note that the relay with this number has no connections in flight. That counts only
    /// for one that is not running.
    pub fn on_drained(&mut self, n: usize)
        ensures
            final(self)@ == old(self)@.drained(n as nat),
            old(self)@.well_formed() ==> final(self)@.well_formed(),
    {
        if n < self.undrained.len() && !self.relays.has_number(n) {
            self.undrained.set(n, false);
        }
        proof {
            let was = old(self)@;
            if !was.is_running(n as nat) {
                assert(self@.undrained =~= was.undrained.remove(n as nat));
                if was.well_formed() {
                    assert forall|a: Seq<char>| #[trigger]
                        self@.relays.contains_key(a) implies self@.undrained.contains(
                        self@.relays[a],
                    ) by {
                        assert(was.relays.dom().contains(a));
                    }
                }
            }
        }
    }

    /// A relay that has to be without connections before the daemon may end; `None` where the
    /// daemon may end.
    pub fn waits_for(&self) -> (r: Option<usize>)
        ensures
            match r {
                Some(n) => self@.undrained.contains(n as nat),
                None => self@.undrained == Set::<nat>::empty(),
            },
    {
        let mut i: usize = 0;
        while i < self.undrained.len()
            invariant
                i <= self.undrained.len(),
                forall|k: int| 0 <= k < i ==> !#[trigger] self.undrained@[k],
            decreases self.undrained.len() - i,
        {
            if self.undrained[i] {
                return Some(i);
            }
            i += 1;
        }
        assert(self@.undrained =~= Set::<nat>::empty());
        None
    }

    /// Whether the daemon may end: no relay that was ever started may still have connections.
    pub fn may_end(&self) -> (r: bool)
        ensures
            r == (self@.undrained == Set::<nat>::empty()),
    {
        let waiting = self.waits_for();
        assert(!Set::<nat>::empty().contains(0));
        waiting.is_none()
    }

    /// Whether a failure to load the targets ends the daemon: only if none was ever loaded.
    /// Otherwise it goes on with what it has.
    pub fn load_failure_is_fatal(&self) -> (r: bool)
        ensures
            r == !self@.bootstrapped,
    {
        !self.bootstrapped
    }

    /// The name of the service, as the current targets give it.
    pub fn service_name(&self) -> (r: Option<String>)
        ensures
            match r {
                Some(name) => self@.current.len() > 0 && name@
                    == self@.current[0].common.service_name@,
                None => self@.current.len() == 0,
            },
    {
        if self.current.len() == 0 {
            None
        } else {
            Some(self.current[0].common.service_name.clone())
        }
    }
}

/// Whether a signal ends the daemon; the others make it reload.
pub fn ends_daemon(signal: Signal) -> (r: bool)
    ensures
        r == (signal == Signal::Interrupt || signal == Signal::Terminate),
{
    match signal {
        Signal::Interrupt => true,
        Signal::Terminate => true,
        Signal::Hangup => false,
    }
}

/// Whether an action stops a relay that is no longer left.
spec fn is_stopped(
    all: Map<Seq<char>, nat>,
    left: Map<Seq<char>, nat>,
    action: ActionView,
) -> bool {
    exists|a: Seq<char>| #[trigger]
        all.dom().contains(a) && !left.contains_key(a) && action == ActionView::Shutdown(all[a])
}

/// Whether the relays that are no longer left were stopped, each once, and no others.
spec fn stopping_all(
    all: Map<Seq<char>, nat>,
    left: Map<Seq<char>, nat>,
    done: Seq<ActionView>,
) -> bool {
    &&& forall|a: Seq<char>| #[trigger]
        left.contains_key(a) ==> all.contains_key(a) && left[a] == all[a]
    &&& forall|a: Seq<char>| #[trigger]
        all.contains_key(a) ==> left.contains_key(a) || done.contains(ActionView::Shutdown(all[a]))
    &&& forall|k: int| 0 <= k < done.len() ==> is_stopped(all, left, #[trigger] done[k])
    &&& has_distinct_numbers(all) ==> done.no_duplicates()
}

proof fn one_more_is_stopped(
    all: Map<Seq<char>, nat>,
    left: Map<Seq<char>, nat>,
    done: Seq<ActionView>,
    name: Seq<char>,
)
    requires
        stopping_all(all, left, done),
        left.contains_key(name),
    ensures
        stopping_all(
            all,
            left.remove(name),
            done.push(ActionView::Shutdown(left[name])),
        ),
{
    let rest = left.remove(name);
    let action = ActionView::Shutdown(all[name]);
    let more = done.push(action);
    assert(all.dom().contains(name));
    assert forall|k: int| 0 <= k < more.len() implies is_stopped(all, rest, #[trigger] more[k]) by {
        if k < done.len() {
            assert(is_stopped(all, left, done[k]));
            let a = choose|a: Seq<char>| #[trigger]
                all.dom().contains(a) && !left.contains_key(a) && done[k] == ActionView::Shutdown(
                    all[a],
                );
            assert(all.dom().contains(a) && !rest.contains_key(a));
        }
    }
    assert forall|a: Seq<char>| #[trigger] all.contains_key(a) implies rest.contains_key(a)
        || more.contains(ActionView::Shutdown(all[a])) by {
        if a == name {
            assert(more[done.len() as int] == action);
        } else if !left.contains_key(a) {
            let k = choose|k: int| 0 <= k < done.len() && done[k] == ActionView::Shutdown(all[a]);
            assert(more[k] == done[k]);
        }
    }
    if has_distinct_numbers(all) && done.contains(action) {
        let k = choose|k: int| 0 <= k < done.len() && done[k] == action;
        assert(is_stopped(all, left, done[k]));
        let a = choose|a: Seq<char>| #[trigger]
            all.dom().contains(a) && !left.contains_key(a) && done[k] == ActionView::Shutdown(
                all[a],
            );
        assert(all.contains_key(a) && all.contains_key(name));
    }
}

proof fn pushed_elements(s: Seq<Seq<char>>)
    requires
        s.len() > 0,
    ensures
        forall|a: Seq<char>| #[trigger]
            s.contains(a) == (s.drop_last().contains(a) || a == s.last()),
{
    let front = s.drop_last();
    assert forall|a: Seq<char>| #[trigger]
        s.contains(a) == (s.drop_last().contains(a) || a == s.last()) by {
        if s.contains(a) {
            let i = choose|i: int| 0 <= i < s.len() && s[i] == a;
            if i < front.len() {
                assert(front[i] == a);
            }
        }
        if front.contains(a) {
            let i = choose|i: int| 0 <= i < front.len() && front[i] == a;
            assert(s[i] == a);
        }
        assert(s[s.len() - 1] == s.last());
    }
}

proof fn stopping_removes(relays: Map<Seq<char>, nat>, stale: Seq<Seq<char>>)
    ensures
        forall|a: Seq<char>| #[trigger]
            after_stopping(relays, stale).0.contains_key(a) <==> relays.contains_key(a)
                && !stale.contains(a),
        stopping_all(relays, after_stopping(relays, stale).0, after_stopping(relays, stale).1),
    decreases stale.len(),
{
    if stale.len() > 0 {
        let front = stale.drop_last();
        let last = stale.last();
        stopping_removes(relays, front);
        pushed_elements(stale);
        let (left, done) = after_stopping(relays, front);
        if left.contains_key(last) {
            one_more_is_stopped(relays, left, done, last);
        }
    }
}

proof fn starting_adds(relays: Map<Seq<char>, nat>, next: nat, wanted: Seq<Seq<char>>)
    ensures
        ({
            let (there, free, done) = after_starting(relays, next, wanted);
            &&& next <= free
            &&& forall|a: Seq<char>| #[trigger]
                there.contains_key(a) <==> relays.contains_key(a) || wanted.contains(a)
            &&& forall|a: Seq<char>| #[trigger]
                relays.contains_key(a) ==> there[a] == relays[a]
            &&& forall|a: Seq<char>| #[trigger]
                there.contains_key(a) && !relays.contains_key(a) ==> next <= there[a] < free
            &&& done.len() == wanted.len()
            &&& forall|i: int|
                0 <= i < wanted.len() ==> #[trigger] done[i] == (if relays.contains_key(wanted[i])
                    || wanted.take(i).contains(wanted[i]) {
                    ActionView::Rotate(i, there[wanted[i]])
                } else {
                    ActionView::Spawn(i, there[wanted[i]])
                })
            &&& has_distinct_numbers(relays) && (forall|a: Seq<char>| #[trigger]
                relays.contains_key(a) ==> relays[a] < next) ==> has_distinct_numbers(there)
        }),
    decreases wanted.len(),
{
    if wanted.len() > 0 {
        let front = wanted.drop_last();
        let last = wanted.last();
        starting_adds(relays, next, front);
        pushed_elements(wanted);
        let (there, free, done) = after_starting(relays, next, front);
        let (all, end, more) = after_starting(relays, next, wanted);
        assert(wanted.take(wanted.len() - 1) == front);
        assert forall|i: int| 0 <= i < wanted.len() implies #[trigger] more[i] == (
        if relays.contains_key(wanted[i]) || wanted.take(i).contains(wanted[i]) {
            ActionView::Rotate(i, all[wanted[i]])
        } else {
            ActionView::Spawn(i, all[wanted[i]])
        }) by {
            if i < front.len() {
                assert(more[i] == done[i]);
                assert(front.take(i) == wanted.take(i));
                assert(front[i] == wanted[i]);
                assert(front.contains(wanted[i]));
                assert(there.contains_key(wanted[i]));
            }
        }
        if has_distinct_numbers(relays) && (forall|a: Seq<char>| #[trigger]
            relays.contains_key(a) ==> relays[a] < next) {
            assert forall|a: Seq<char>| #[trigger] there.contains_key(a) implies there[a] < free by {
                if relays.contains_key(a) {
                    assert(there[a] == relays[a]);
                }
            }
            assert(has_distinct_numbers(all));
        }
    }
}

proof fn missing_addresses(current: Seq<Metadata>, new: Seq<Metadata>)
    ensures
        forall|a: Seq<char>| #[trigger]
            addresses(missing(current, new)).contains(a) <==> addresses(current).contains(a)
                && !addresses(new).contains(a),
    decreases current.len(),
{
    reveal(Seq::filter);
    if current.len() == 0 {
        assert(missing(current, new).len() == 0);
    } else {
        let front = current.drop_last();
        missing_addresses(front, new);
        let m = current.last();
        let rest = missing(front, new);
        let gone = missing(current, new);
        assert(addresses(current) == addresses(front).push(m.target_addr@));
        assert(gone == if addresses(new).contains(m.target_addr@) { rest } else { rest.push(m) });
        assert(addresses(rest.push(m)) == addresses(rest).push(m.target_addr@));
        assert forall|s: Seq<Seq<char>>, x: Seq<char>, a: Seq<char>| #[trigger]
            s.push(x).contains(a) <==> s.contains(a) || a == x by {
            if s.contains(a) {
                let i = choose|i: int| 0 <= i < s.len() && s[i] == a;
                assert(s.push(x)[i] == a);
            }
            if s.push(x).contains(a) && a != x {
                let i = choose|i: int| 0 <= i < s.push(x).len() && s.push(x)[i] == a;
                assert(s[i] == a);
            }
            assert(s.push(x)[s.len() as int] == x);
        }
    }
}

/// A reload keeps the relays in step with the targets: if there were relays to the previous targets
/// and to no others, there are relays to the new targets and to no others afterwards.
pub proof fn reload_keeps_in_step(daemon: DaemonView, new: Seq<Metadata>)
    requires
        daemon.in_step(),
    ensures
        daemon.reloaded(new).0.in_step(),
{
    let stale = addresses(missing(daemon.current, new));
    stopping_removes(daemon.relays, stale);
    let left = after_stopping(daemon.relays, stale).0;
    starting_adds(left, daemon.spawned, addresses(new));
    missing_addresses(daemon.current, new);
    let there = daemon.reloaded(new).0.relays;
    assert forall|a: Seq<char>| there.dom().contains(a) == addresses(new).to_set().contains(a) by {
        assert(there.contains_key(a) == (left.contains_key(a) || addresses(new).contains(a)));
        assert(left.contains_key(a) == (daemon.relays.contains_key(a) && !stale.contains(a)));
        assert(stale.contains(a) == (addresses(daemon.current).contains(a) && !addresses(
            new,
        ).contains(a)));
        assert(daemon.relays.dom().contains(a) == addresses(daemon.current).to_set().contains(a));
    }
    assert(there.dom() =~= addresses(new).to_set());
}

/// A reload keeps the daemon well formed.
pub proof fn reload_keeps_well_formed(daemon: DaemonView, new: Seq<Metadata>)
    requires
        daemon.well_formed(),
    ensures
        daemon.reloaded(new).0.well_formed(),
{
    let stale = addresses(missing(daemon.current, new));
    stopping_removes(daemon.relays, stale);
    let left = after_stopping(daemon.relays, stale).0;
    starting_adds(left, daemon.spawned, addresses(new));
    let after = daemon.reloaded(new).0;
    assert forall|a: Seq<char>| #[trigger] left.contains_key(a) implies left[a] < daemon.spawned
        && daemon.undrained.contains(left[a]) by {
        assert(daemon.relays.contains_key(a));
    }
    assert(has_distinct_numbers(left));
    assert forall|a: Seq<char>| #[trigger] after.relays.contains_key(a) implies after.undrained.contains(
        after.relays[a],
    ) by {
        if left.contains_key(a) {
            assert(after.relays[a] == left[a]);
        }
    }
}

/// What a reload does: it first stops exactly the relays to targets that are gone, each once. Then
/// it goes through the new targets in order; one that is new is started at its first occurrence,
/// under a number that was never given out, and every other one is rotated. So no relay to a target
/// that stays is stopped or started anew.
pub proof fn reload_actions(daemon: DaemonView, new: Seq<Metadata>)
    requires
        daemon.in_step(),
        daemon.well_formed(),
    ensures
        ({
            let (after, actions) = daemon.reloaded(new);
            let n = actions.len() - new.len();
            &&& n >= 0
            &&& actions.take(n).no_duplicates()
            &&& forall|a: Seq<char>| #[trigger]
                addresses(daemon.current).contains(a) && !addresses(new).contains(a)
                    ==> actions.take(n).contains(ActionView::Shutdown(daemon.relays[a]))
            &&& forall|k: int|
                0 <= k < n ==> exists|a: Seq<char>| #[trigger]
                    addresses(daemon.current).contains(a) && !addresses(new).contains(a)
                        && #[trigger] actions[k] == ActionView::Shutdown(daemon.relays[a])
            &&& forall|i: int|
                0 <= i < new.len() ==> #[trigger] actions[n + i] == (if addresses(
                    daemon.current,
                ).contains(new[i].target_addr@) || addresses(new).take(i).contains(
                    new[i].target_addr@,
                ) {
                    ActionView::Rotate(i, after.relays[new[i].target_addr@])
                } else {
                    ActionView::Spawn(i, after.relays[new[i].target_addr@])
                })
            &&& forall|a: Seq<char>| #[trigger]
                addresses(new).contains(a) ==> if addresses(daemon.current).contains(a) {
                    after.relays[a] == daemon.relays[a]
                } else {
                    daemon.spawned <= after.relays[a] < after.spawned
                }
        }),
{
    let stale = addresses(missing(daemon.current, new));
    let (left, stopped) = after_stopping(daemon.relays, stale);
    let (there, free, started) = after_starting(left, daemon.spawned, addresses(new));
    stopping_removes(daemon.relays, stale);
    starting_adds(left, daemon.spawned, addresses(new));
    missing_addresses(daemon.current, new);
    let (after, actions) = daemon.reloaded(new);
    let n = stopped.len() as int;
    assert(actions.take(n) == stopped);
    assert forall|a: Seq<char>| daemon.relays.contains_key(a) == #[trigger] addresses(
        daemon.current,
    ).contains(a) by {
        assert(daemon.relays.dom().contains(a) == addresses(daemon.current).to_set().contains(a));
    }
    assert forall|a: Seq<char>| #[trigger]
        addresses(daemon.current).contains(a) && !addresses(new).contains(a) implies actions.take(
        n,
    ).contains(ActionView::Shutdown(daemon.relays[a])) by {
        assert(stale.contains(a));
        assert(daemon.relays.contains_key(a));
        assert(!left.contains_key(a));
    }
    assert forall|k: int| 0 <= k < n implies exists|a: Seq<char>| #[trigger]
        addresses(daemon.current).contains(a) && !addresses(new).contains(a) && #[trigger] actions[k]
            == ActionView::Shutdown(daemon.relays[a]) by {
        assert(actions[k] == stopped[k]);
        assert(is_stopped(daemon.relays, left, stopped[k]));
        let a = choose|a: Seq<char>| #[trigger]
            daemon.relays.dom().contains(a) && !left.contains_key(a) && stopped[k]
                == ActionView::Shutdown(daemon.relays[a]);
        assert(daemon.relays.contains_key(a));
        assert(stale.contains(a));
        assert(addresses(daemon.current).contains(a));
    }
    assert forall|a: Seq<char>| #[trigger] addresses(new).contains(a) implies left.contains_key(a)
        == addresses(daemon.current).contains(a) by {
        assert(!stale.contains(a));
    }
    assert forall|i: int| 0 <= i < new.len() implies #[trigger] actions[n + i] == (if addresses(
        daemon.current,
    ).contains(new[i].target_addr@) || addresses(new).take(i).contains(new[i].target_addr@) {
        ActionView::Rotate(i, after.relays[new[i].target_addr@])
    } else {
        ActionView::Spawn(i, after.relays[new[i].target_addr@])
    }) by {
        let a = new[i].target_addr@;
        assert(addresses(new)[i] == a);
        assert(addresses(new).contains(a));
        assert(actions[n + i] == started[i]);
    }
    assert forall|a: Seq<char>| #[trigger] addresses(new).contains(a) implies (if addresses(
        daemon.current,
    ).contains(a) {
        after.relays[a] == daemon.relays[a]
    } else {
        daemon.spawned <= after.relays[a] < after.spawned
    }) by {
        assert(there.contains_key(a));
        assert(left.contains_key(a) == addresses(daemon.current).contains(a));
    }
}

/// Something that happens to the daemon.
pub enum DaemonEvent {
    /// A list of targets was loaded.
    Reload(Seq<Metadata>),
    /// All relays were told to stop.
    End,
    /// The relay with this number was found without connections.
    Drained(nat),
}

/// The daemon after a course of events.
pub open spec fn after_events(daemon: DaemonView, events: Seq<DaemonEvent>) -> DaemonView
    decreases events.len(),
{
    if events.len() == 0 {
        daemon
    } else {
        let before = after_events(daemon, events.drop_last());
        match events.last() {
            DaemonEvent::Reload(new) => before.reloaded(new).0,
            DaemonEvent::End => before.ended(),
            DaemonEvent::Drained(n) => before.drained(n),
        }
    }
}

/// Whatever happens, every relay that was ever started is waited for until it was found without
/// connections: neither a reload that takes its target away nor the end of the daemon changes that.
pub proof fn every_relay_is_waited_for(events: Seq<DaemonEvent>, n: nat)
    requires
        n < after_events(DaemonView::empty(), events).spawned,
        !events.contains(DaemonEvent::Drained(n)),
    ensures
        after_events(DaemonView::empty(), events).undrained.contains(n),
    decreases events.len(),
{
    let daemon = DaemonView::empty();
    if events.len() > 0 {
        let front = events.drop_last();
        let before = after_events(daemon, front);
        if front.contains(DaemonEvent::Drained(n)) {
            let i = choose|i: int| 0 <= i < front.len() && front[i] == DaemonEvent::Drained(n);
            assert(events[i] == DaemonEvent::Drained(n));
        }
        assert(events.last() == events[events.len() - 1]);
        if n < before.spawned {
            every_relay_is_waited_for(front, n);
        }
        if let DaemonEvent::Reload(new) = events.last() {
            let stale = addresses(missing(before.current, new));
            starting_adds(
                after_stopping(before.relays, stale).0,
                before.spawned,
                addresses(new),
            );
        }
    }
}

/// Whatever happens, the daemon stays well formed; so every running relay is waited for.
pub proof fn events_keep_well_formed(daemon: DaemonView, events: Seq<DaemonEvent>)
    requires
        daemon.well_formed(),
    ensures
        after_events(daemon, events).well_formed(),
    decreases events.len(),
{
    if events.len() > 0 {
        let before = after_events(daemon, events.drop_last());
        events_keep_well_formed(daemon, events.drop_last());
        match events.last() {
            DaemonEvent::Reload(new) => {
                reload_keeps_well_formed(before, new);
            },
            DaemonEvent::End => {},
            DaemonEvent::Drained(n) => {
                assert forall|a: Seq<char>| #[trigger]
                    before.drained(n).relays.contains_key(a) implies before.drained(
                    n,
                ).undrained.contains(before.drained(n).relays[a]) by {
                    assert(before.relays.dom().contains(a));
                }
            },
        }
    }
}

/// The first fetch that failed decides, whatever comes behind it.
pub proof fn the_first_failed_fetch_decides(
    common: Arc<CommonInfo>,
    planned: Seq<PlannedTarget>,
    fetched: Seq<Result<(String, Tls), TlsError>>,
    i: int,
)
    requires
        0 <= i <= fetched.len(),
        forall|j: int| 0 <= j < i ==> (#[trigger] fetched[j]) is Ok,
        i < fetched.len() ==> fetched[i] is Err,
    ensures
        i == fetched.len() ==> assembled(common, planned, fetched) is Ok,
        i < fetched.len() ==> assembled(common, planned, fetched) == Err::<
            Seq<Metadata>,
            TlsError,
        >(fetched[i]->Err_0),
    decreases fetched.len(),
{
    if fetched.len() > 0 {
        let front = fetched.drop_last();
        let n = if i < front.len() {
            i
        } else {
            front.len() as int
        };
        assert forall|j: int| 0 <= j < n implies (#[trigger] front[j]) is Ok by {
            assert(front[j] == fetched[j]);
        }
        if i < front.len() {
            assert(front[i] == fetched[i]);
        } else if i == fetched.len() {
            assert(fetched[i - 1] is Ok);
        }
        the_first_failed_fetch_decides(common, planned, front, n);
    }
}

/// The socket id of a target is its address, character by character, with an underscore for every
/// colon and slash. So it holds neither.
pub proof fn socket_ids_follow_the_address(addr: Seq<char>)
    ensures
        socket_id_of(addr).len() == addr.len(),
        forall|i: int|
            0 <= i < addr.len() && (addr[i] == ':' || addr[i] == '/') ==> #[trigger] socket_id_of(
                addr,
            )[i] == '_',
        forall|i: int|
            0 <= i < addr.len() && addr[i] != ':' && addr[i] != '/' ==> #[trigger] socket_id_of(
                addr,
            )[i] == addr[i],
        !socket_id_of(addr).contains(':'),
        !socket_id_of(addr).contains('/'),
{
}

/// The file name of a target's socket: the socket id, for a weight from 2 to 100 an `@` and the
/// weight, and the extension `sock`. It is a file name.
pub proof fn socket_names_follow_the_target(target: TargetView)
    ensures
        target.weight matches Some(w) && 2 <= w <= 100 ==> socket_name_of(target) == socket_id_of(
            target.addr,
        ) + seq!['@'] + text::decimal(target.weight->0 as nat) + seq!['.', 's', 'o', 'c', 'k'],
        (target.weight is None || target.weight->0 < 2 || target.weight->0 > 100)
            ==> socket_name_of(target) == socket_id_of(target.addr) + seq![
            '.',
            's',
            'o',
            'c',
            'k',
        ],
        path::is_file_name(socket_name_of(target)),
{
    reveal_strlit("@");
    reveal_strlit(".sock");
    assert("@"@ == seq!['@']);
    assert(".sock"@ == seq!['.', 's', 'o', 'c', 'k']);
    socket_ids_follow_the_address(target.addr);
    let name = socket_name_of(target);
    let id = socket_id_of(target.addr);
    if target.weight is Some {
        text::decimal_parses_back(target.weight->0 as nat);
    }
    assert forall|i: int| 0 <= i < name.len() implies #[trigger] name[i] != '/' by {
        if i < id.len() {
            assert(name[i] == id[i]);
            assert(id.contains(id[i]));
        } else if target.weight is Some && 2 <= target.weight->0 <= 100 {
            let d = text::decimal(target.weight->0 as nat);
            if id.len() < i < id.len() + 1 + d.len() {
                assert(name[i] == d[i - id.len() - 1]);
                assert(text::is_digit(d[i - id.len() - 1]));
            }
        }
    }
    assert(name.last() == 'k');
}

/// The socket of a target is in the directory of its service, under the base directory.
pub proof fn sockets_are_in_the_service_directory(
    base_dir: Seq<char>,
    service_name: Seq<char>,
    target: TargetView,
)
    requires
        base_dir.len() > 0,
        base_dir.last() != '/',
        service_name.len() > 0,
        service_name[0] != '/',
        service_name.last() != '/',
    ensures
        socket_path_of(base_dir, service_name, target) == base_dir.push('/') + service_name.push(
            '/',
        ) + socket_name_of(target),
{
    socket_names_follow_the_target(target);
    let name = socket_name_of(target);
    assert(name.contains(name[0]));
    let dir = path::joined(base_dir, service_name);
    assert(dir.last() == service_name.last());
    assert(socket_path_of(base_dir, service_name, target) =~= base_dir.push('/')
        + service_name.push('/') + name);
}

/// A rotation moves the socket of a target exactly if the effective weight of the target changes.
pub proof fn a_new_weight_moves_the_socket(
    relay: RelayView,
    metadata: Metadata,
    base_dir: Seq<char>,
    service_name: Seq<char>,
    before: TargetView,
    after: TargetView,
)
    requires
        before.addr == after.addr,
        relay.metadata.socket_path@ == socket_path_of(base_dir, service_name, before),
        metadata.socket_path@ == socket_path_of(base_dir, service_name, after),
    ensures
        relay.moves_socket(metadata) <==> effective_weight(before) != effective_weight(after),
{
    socket_names_follow_the_target(before);
    socket_names_follow_the_target(after);
    socket_name_tells_weight(before, after);
    path::siblings_are_told_apart(
        path::joined(base_dir, service_name),
        socket_name_of(before),
        socket_name_of(after),
    );
}

/// The effective weight of a target is its weight where that is from 1 to 100, and 1 otherwise.
pub proof fn weights_default_to_one(target: TargetView)
    ensures
        target.weight matches Some(w) && 1 <= w <= 100 ==> effective_weight(target)
            == target.weight->0,
        target.weight is None || target.weight->0 < 1 || target.weight->0 > 100
            ==> effective_weight(target) == 1,
{
}

/// Targets are planned one by one and in order: what a list of targets gives is what its beginning
/// gives, followed by what its end gives. A target with a valid TLS pair gives one plan, with its
/// socket id and its socket path; any other gives none.
pub proof fn targets_are_planned_one_by_one(
    config: ConfigView,
    a: Seq<TargetView>,
    b: Seq<TargetView>,
    target: TargetView,
)
    ensures
        planned_targets(ConfigView { targets: a + b, ..config }) == planned_targets(
            ConfigView { targets: a, ..config },
        ) + planned_targets(ConfigView { targets: b, ..config }),
        planned_targets(ConfigView { targets: seq![target], ..config }) == (if (target.cert is Some)
            == (target.key is Some) {
            seq![
                PlannedView {
                    socket_id: socket_id_of(target.addr),
                    socket_path: socket_path_of(config.base_dir, config.service_name, target),
                    target,
                },
            ]
        } else {
            Seq::empty()
        }),
{
    let keep = |t: TargetView| t.has_valid_tls_pair();
    let plan = |t: TargetView| planned(config.base_dir, config.service_name, t);
    filtered_parts(a, b, keep);
    let x = a.filter(keep);
    let y = b.filter(keep);
    assert((x + y).map_values(plan) =~= x.map_values(plan) + y.map_values(plan));
    let one = seq![target];
    reveal(Seq::filter);
    reveal_with_fuel(Seq::filter, 2);
    assert(one.drop_last() == Seq::<TargetView>::empty());
    assert(one.filter(keep) =~= if target.has_valid_tls_pair() {
        one
    } else {
        Seq::<TargetView>::empty()
    });
    assert(one.map_values(plan) =~= seq![plan(target)]);
    assert(planned_targets(ConfigView { targets: one, ..config }) =~= (if (target.cert is Some) == (
    target.key is Some) {
        seq![plan(target)]
    } else {
        Seq::empty()
    }));
}

proof fn filtered_parts(a: Seq<TargetView>, b: Seq<TargetView>, keep: spec_fn(TargetView) -> bool)
    ensures
        (a + b).filter(keep) == a.filter(keep) + b.filter(keep),
    decreases b.len(),
{
    reveal(Seq::filter);
    if b.len() == 0 {
        assert(a + b == a);
    } else {
        filtered_parts(a, b.drop_last(), keep);
        assert((a + b).drop_last() == a + b.drop_last());
        assert((a + b).last() == b.last());
    }
    assert((a + b).filter(keep) =~= a.filter(keep) + b.filter(keep));
}

/// A relay that is found without connections is no longer waited for, unless it is running; no other
/// relay is affected, and nothing else changes. The end of the daemon stops all relays and changes
/// nothing else.
pub proof fn draining_is_exact(daemon: DaemonView, n: nat, m: nat, a: Seq<char>)
    ensures
        daemon.drained(n).undrained.contains(m) <==> daemon.undrained.contains(m) && (m != n || (
        exists|b: Seq<char>| #[trigger] daemon.relays.contains_key(b) && daemon.relays[b] == n)),
        daemon.drained(n).relays == daemon.relays,
        daemon.drained(n).spawned == daemon.spawned,
        daemon.drained(n).current == daemon.current,
        daemon.drained(n).bootstrapped == daemon.bootstrapped,
        !daemon.ended().relays.contains_key(a),
        !daemon.ended().is_running(m),
        daemon.ended().undrained == daemon.undrained,
        daemon.ended().spawned == daemon.spawned,
        daemon.ended().current == daemon.current,
        daemon.ended().bootstrapped == daemon.bootstrapped,
{
    if daemon.is_running(n) {
        let b = choose|b: Seq<char>| #[trigger]
            daemon.relays.dom().contains(b) && daemon.relays[b] == n;
        assert(daemon.relays.contains_key(b));
    }
    if exists|b: Seq<char>| #[trigger] daemon.relays.contains_key(b) && daemon.relays[b] == n {
        let b = choose|b: Seq<char>| #[trigger]
            daemon.relays.contains_key(b) && daemon.relays[b] == n;
        assert(daemon.relays.dom().contains(b));
    }
}

/// After a reload the new targets are the current ones, and the relays that are waited for are those
/// from before and those that were started; the numbers of these follow on those given out before,
/// and each of them is that of a relay that was started.
pub proof fn a_reload_waits_for_what_it_starts(daemon: DaemonView, new: Seq<Metadata>, n: nat)
    ensures
        ({
            let (after, actions) = daemon.reloaded(new);
            &&& after.current == new
            &&& after.bootstrapped
            &&& after.spawned >= daemon.spawned
            &&& after.undrained.contains(n) <==> daemon.undrained.contains(n) || daemon.spawned <= n
                < after.spawned
            &&& (daemon.spawned <= n < after.spawned) <==> exists|i: int| #[trigger]
                actions.contains(ActionView::Spawn(i, n))
        }),
{
    let stale = addresses(missing(daemon.current, new));
    let (left, stopped) = after_stopping(daemon.relays, stale);
    let (there, free, started) = after_starting(left, daemon.spawned, addresses(new));
    let (after, actions) = daemon.reloaded(new);
    starting_adds(left, daemon.spawned, addresses(new));
    stopping_removes(daemon.relays, stale);
    let i = started_numbers(left, daemon.spawned, addresses(new), n);
    if daemon.spawned <= n < free {
        assert(actions[stopped.len() + i] == started[i]);
        assert(actions.contains(ActionView::Spawn(i, n)));
    }
    if exists|i: int| #[trigger] actions.contains(ActionView::Spawn(i, n)) {
        let j = choose|j: int| #[trigger] actions.contains(ActionView::Spawn(j, n));
        let k = choose|k: int| 0 <= k < actions.len() && actions[k] == ActionView::Spawn(j, n);
        if k < stopped.len() {
            assert(is_stopped(daemon.relays, left, stopped[k]));
            assert(actions[k] == stopped[k]);
        } else {
            let m = k - stopped.len();
            assert(actions[k] == started[m]);
            let a = addresses(new)[m];
            assert(addresses(new).contains(a));
            assert(there.contains_key(a));
            assert(started[m] == ActionView::Spawn(m, there[a]));
        }
    }
}

proof fn started_numbers(
    relays: Map<Seq<char>, nat>,
    next: nat,
    wanted: Seq<Seq<char>>,
    n: nat,
) -> (i: int)
    ensures
        ({
            let (there, free, done) = after_starting(relays, next, wanted);
            next <= n < free ==> 0 <= i < done.len() && done[i] == ActionView::Spawn(i, n)
        }),
    decreases wanted.len(),
{
    if wanted.len() == 0 {
        0
    } else {
        let front = wanted.drop_last();
        let (there, free, done) = after_starting(relays, next, front);
        starting_adds(relays, next, front);
        let i = started_numbers(relays, next, front, n);
        if n < free {
            i
        } else {
            wanted.len() - 1
        }
    }
}

} // verus!
