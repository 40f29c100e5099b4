//! Persistent fleet agents: pirates and navy ships that roam the galaxy graph
//! and carry their battle damage from one fight to the next.

use vstd::prelude::*;

use crate::ids::{ShipId, SystemId};
use crate::time::Tick;

verus! {

/// Where a patrol is.
#[derive(Debug, Clone, Copy, PartialEq, Eq, Structural)]
pub enum PatrolLocation {
    Docked(SystemId),
    InTransit { origin: SystemId, dest: SystemId, departure: Tick, arrival: Tick },
}

/// A pirate or navy ship. `hull` and `shield` persist between battles; a
/// patrol whose hull is gone is dead. `F` is the host's real scalar type.
#[derive(Debug, Clone, Copy)]
pub struct Patrol<F> {
    pub ship: ShipId,
    pub location: PatrolLocation,
    pub hull: i32,
    pub shield: F,
}

impl<F> Patrol<F> {
    /// A fresh patrol docked at `at`.
    pub fn new(ship: ShipId, hull: i32, shield: F, at: SystemId) -> (r: Self)
        ensures
            r == (Patrol { ship, location: PatrolLocation::Docked(at), hull, shield }),
    {
        Patrol { ship, location: PatrolLocation::Docked(at), hull, shield }
    }

    /// The patrol still has hull left.
    pub open spec fn alive(&self) -> bool {
        self.hull > 0
    }

    /// The system the patrol is docked at, if any.
    pub open spec fn docked(&self) -> Option<SystemId> {
        match self.location {
            PatrolLocation::Docked(s) => Some(s),
            _ => None,
        }
    }

    pub fn is_alive(&self) -> (r: bool)
        ensures
            r == self.alive(),
    {
        self.hull > 0
    }

    pub fn docked_at(&self) -> (r: Option<SystemId>)
        ensures
            r == self.docked(),
    {
        match self.location {
            PatrolLocation::Docked(s) => Some(s),
            _ => None,
        }
    }
}

/// Indices of the live patrols of `fleet` docked at `sys`, in fleet order.
pub open spec fn docked_indices<F>(fleet: Seq<Patrol<F>>, sys: SystemId) -> Seq<usize>
    decreases fleet.len(),
{
    if fleet.len() == 0 {
        Seq::empty()
    } else {
        let i = (fleet.len() - 1) as usize;
        docked_indices(fleet.drop_last(), sys) + if fleet.last().alive() && fleet.last().docked() == Some(sys) {
            seq![i]
        } else {
            Seq::<usize>::empty()
        }
    }
}

/// Indices in `docked_indices` are in range, strictly increasing, and name
/// exactly the live patrols docked at `sys`.
pub proof fn lemma_docked_indices<F>(fleet: Seq<Patrol<F>>, sys: SystemId)
    requires
        fleet.len() <= usize::MAX,
    ensures
        forall|k: int| 0 <= k < docked_indices(fleet, sys).len() ==> (#[trigger] docked_indices(fleet, sys)[k]) < fleet.len(),
        forall|a: int, b: int|
            0 <= a < b < docked_indices(fleet, sys).len() ==> docked_indices(fleet, sys)[a] < docked_indices(fleet, sys)[b],
        forall|i: int|
            0 <= i < fleet.len() ==> (docked_indices(fleet, sys).contains(i as usize) <==> (#[trigger] fleet[i]).alive()
                && fleet[i].docked() == Some(sys)),
    decreases fleet.len(),
{
    if fleet.len() > 0 {
        let p = fleet.drop_last();
        lemma_docked_indices(p, sys);
        let d = docked_indices(p, sys);
        let all = docked_indices(fleet, sys);
        assert forall|i: int|
            0 <= i < fleet.len() implies (all.contains(i as usize) <==> (#[trigger] fleet[i]).alive() && fleet[i].docked() == Some(sys)) by {
            if i < p.len() {
                assert(p[i] == fleet[i]);
                if all.contains(i as usize) {
                    let k = choose|k: int| 0 <= k < all.len() && all[k] == i as usize;
                    if k < d.len() {
                        assert(all[k] == d[k]);
                    }
                }
                if d.contains(i as usize) {
                    let k = choose|k: int| 0 <= k < d.len() && d[k] == i as usize;
                    assert(all[k] == d[k]);
                }
            } else {
                if all.contains(i as usize) {
                    let k = choose|k: int| 0 <= k < all.len() && all[k] == i as usize;
                    if k < d.len() {
                        assert(all[k] == d[k]);
                    }
                }
                if fleet.last().alive() && fleet.last().docked() == Some(sys) {
                    assert(all[d.len() as int] == i as usize);
                }
            }
        }
    }
}

/// Indices of the live patrols of `fleet` docked at `sys`, in fleet order.
pub fn indices_docked_at<F>(fleet: &[Patrol<F>], sys: SystemId) -> (r: Vec<usize>)
    ensures
        r@ == docked_indices(fleet@, sys),
{
    let n = fleet.len();
    let mut out: Vec<usize> = Vec::new();
    let mut i: usize = 0;
    assert(fleet@.take(0) =~= Seq::<Patrol<F>>::empty());
    while i < n
        invariant
            n == fleet@.len(),
            i <= n,
            out@ == docked_indices(fleet@.take(i as int), sys),
        decreases n - i,
    {
        proof {
            assert(fleet@.take(i + 1).drop_last() =~= fleet@.take(i as int));
            assert(fleet@.take(i + 1).last() == fleet@[i as int]);
        }
        let p = &fleet[i];
        if p.is_alive() && p.docked_at() == Some(sys) {
            out.push(i);
        }
        proof {
            assert(out@ =~= docked_indices(fleet@.take(i + 1), sys));
        }
        i = i + 1;
    }
    assert(fleet@.take(n as int) =~= fleet@);
    out
}

} // verus!
