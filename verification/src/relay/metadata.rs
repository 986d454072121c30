//! What a relay knows of its target.
use crate::tls::Tls;
use std::sync::Arc;
use vstd::prelude::*;

verus! {

/// What all relays of a service have in common.
#[derive(Debug, Clone)]
pub struct CommonInfo {
    pub max_connections: usize,
    pub service_name: String,
    pub metrics_interval_secs: u64,
}

/// A target, with the socket that it is reached through.
#[derive(Clone)]
pub struct Metadata {
    pub common: Arc<CommonInfo>,
    pub socket_id: String,
    pub socket_path: String,
    pub target_addr: String,
    pub target_tls: Tls,
}

/// The addresses of a list of targets.
pub open spec fn addresses(v: Seq<Metadata>) -> Seq<Seq<char>> {
    v.map_values(|m: Metadata| m.target_addr@)
}

/// Those of `old` whose address is not among those of `new`, in order.
pub open spec fn missing(old: Seq<Metadata>, new: Seq<Metadata>) -> Seq<Metadata> {
    old.filter(|m: Metadata| !addresses(new).contains(m.target_addr@))
}

fn has_address(v: &[Metadata], addr: &String) -> (r: bool)
    ensures
        r == addresses(v@).contains(addr@),
{
    let mut i: usize = 0;
    while i < v.len()
        invariant
            i <= v.len(),
            forall|j: int| 0 <= j < i ==> (#[trigger] addresses(v@)[j]) != addr@,
        decreases v.len() - i,
    {
        if v[i].target_addr == *addr {
            assert(addresses(v@)[i as int] == addr@);
            return true;
        }
        i += 1;
    }
    false
}

impl Metadata {
    /// The targets of `old` that `new` no longer has.
    pub fn missing_targets<'a>(old: &'a [Metadata], new: &[Metadata]) -> (r: Vec<&'a Metadata>)
        ensures
            r@.map_values(|m: &Metadata| *m) == missing(old@, new@),
    {
        let ghost gone = |m: Metadata| !addresses(new@).contains(m.target_addr@);
        let mut r: Vec<&'a Metadata> = Vec::new();
        let mut i: usize = 0;
        proof {
            reveal(Seq::filter);
            assert(r@.map_values(|m: &Metadata| *m) == old@.take(0).filter(gone));
        }
        while i < old.len()
            invariant
                i <= old.len(),
                gone == (|m: Metadata| !addresses(new@).contains(m.target_addr@)),
                r@.map_values(|m: &Metadata| *m) == old@.take(i as int).filter(gone),
            decreases old.len() - i,
        {
            proof {
                reveal(Seq::filter);
                assert(old@.take(i + 1).drop_last() == old@.take(i as int));
                assert(old@.take(i + 1).last() == old@[i as int]);
            }
            if !has_address(new, &old[i].target_addr) {
                let ghost before = r@.map_values(|m: &Metadata| *m);
                r.push(&old[i]);
                assert(r@.map_values(|m: &Metadata| *m) == before.push(old@[i as int]));
            }
            i += 1;
        }
        assert(old@.take(old@.len() as int) == old@);
        r
    }
}

/// The addresses of a list are those of its targets, one by one.
pub proof fn addresses_are_those_of_the_targets(v: Seq<Metadata>)
    ensures
        addresses(v).len() == v.len(),
        forall|i: int| 0 <= i < v.len() ==> #[trigger] addresses(v)[i] == v[i].target_addr@,
{
}

/// The targets that are missing are exactly those of the old list to whose address the new list has
/// no target, in the order of the old list. The result gives their positions in the old list.
pub proof fn missing_targets_are_gone(old: Seq<Metadata>, new: Seq<Metadata>) -> (pos: Seq<int>)
    ensures
        ({
            let gone = missing(old, new);
            &&& pos.len() == gone.len()
            &&& forall|k: int|
                0 <= k < pos.len() ==> 0 <= #[trigger] pos[k] < old.len() && gone[k] == old[pos[k]]
            &&& forall|j: int, k: int|
                0 <= j < k < pos.len() ==> #[trigger] pos[j] < #[trigger] pos[k]
            &&& forall|i: int|
                0 <= i < old.len() ==> (pos.contains(i) <==> forall|j: int|
                    0 <= j < new.len() ==> (#[trigger] new[j]).target_addr@ != (
                    #[trigger] old[i]).target_addr@)
        }),
    decreases old.len(),
{
    reveal(Seq::filter);
    let gone = |m: Metadata| !addresses(new).contains(m.target_addr@);
    if old.len() == 0 {
        assert(missing(old, new).len() == 0);
        Seq::empty()
    } else {
        let front = old.drop_last();
        let last = old.last();
        let n = front.len() as int;
        let before = missing_targets_are_gone(front, new);
        let pos = if gone(last) {
            before.push(n)
        } else {
            before
        };
        assert(missing(old, new) == if gone(last) {
            missing(front, new).push(last)
        } else {
            missing(front, new)
        });
        assert forall|k: int| 0 <= k < before.len() implies #[trigger] pos[k] == before[k] by {}
        assert forall|k: int| 0 <= k < pos.len() implies 0 <= #[trigger] pos[k] < old.len()
            && missing(old, new)[k] == old[pos[k]] by {
            if k < before.len() {
                assert(0 <= before[k] < front.len());
                assert(front[before[k]] == old[before[k]]);
            }
        }
        assert forall|j: int, k: int| 0 <= j < k < pos.len() implies #[trigger] pos[j]
            < #[trigger] pos[k] by {
            assert(0 <= before[j] < front.len());
            if k < before.len() {
                assert(before[j] < before[k]);
            }
        }
        assert forall|i: int| 0 <= i < old.len() implies (pos.contains(i) <==> forall|j: int|
            0 <= j < new.len() ==> (#[trigger] new[j]).target_addr@ != (
            #[trigger] old[i]).target_addr@) by {
            if i < n {
                assert(front[i] == old[i]);
                if before.contains(i) {
                    let k = choose|k: int| 0 <= k < before.len() && before[k] == i;
                    assert(pos[k] == i);
                }
                if pos.contains(i) {
                    let k = choose|k: int| 0 <= k < pos.len() && pos[k] == i;
                    assert(before[k] == i);
                }
            } else {
                if gone(last) {
                    assert(pos[before.len() as int] == n);
                    assert forall|j: int| 0 <= j < new.len() implies (
                    #[trigger] new[j]).target_addr@ != old[i].target_addr@ by {
                        assert(addresses(new)[j] == new[j].target_addr@);
                    }
                } else {
                    let j = choose|j: int|
                        0 <= j < addresses(new).len() && addresses(new)[j] == last.target_addr@;
                    assert(new[j].target_addr@ == old[i].target_addr@);
                    if pos.contains(i) {
                        let k = choose|k: int| 0 <= k < pos.len() && pos[k] == i;
                        assert(0 <= before[k] < front.len());
                    }
                }
            }
        }
        pos
    }
}

} // verus!
