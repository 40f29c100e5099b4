//! The trading phase, one trader at a time: the decisions that do not need a
//! route planner. The host runs the phase: it draws a respawn system when a
//! destroyed trader is due, and asks its planner for a route when an empty NPC
//! trader is docked; everything else is decided and done here.

use vstd::prelude::*;

use crate::idmap::sorted_entries;
use crate::ids::{CommodityId, SystemId};
use crate::production::add_outputs;
use crate::trader::TraderLocation;
use crate::world::{sale_proceeds, unsold, TraderView, World};
use crate::{Money, Quantity};

verus! {

/// Where trader `t` is once a due arrival has docked it.
pub open spec fn settled_location<F>(w: World<F>, t: int) -> TraderLocation {
    match w.spec_traders()[t].location {
        TraderLocation::InTransit { dest, arrival, .. } => if w.spec_tick().0 >= arrival.0 {
            TraderLocation::Docked(dest)
        } else {
            w.spec_traders()[t].location
        },
        loc => loc,
    }
}

/// What a trader's turn came to.
#[derive(Debug, Clone, Copy, PartialEq, Eq, Structural)]
pub enum TraderTurn {
    /// Destroyed; `due` when its downtime is over and it should respawn.
    Destroyed { due: bool },
    /// Still travelling.
    InTransit,
    /// A player's trader, docked: it moves and trades only on commands.
    PlayerDocked(SystemId),
    /// An NPC trader sold its hold here and waits for the next tick to buy.
    Sold(SystemId),
    /// An empty NPC trader docked here, ready for a route.
    SeekRoute(SystemId),
}

/// The sale of trader `t`'s hold where it docks fits in credits (asked of
/// NPC traders, which sell on their turn).
pub open spec fn sale_fits<F>(w: World<F>, t: int) -> bool {
    match settled_location(w, t) {
        TraderLocation::Docked(s) => {
            let tr = w.spec_traders()[t];
            let g = w.spec_markets()[s.0 as int].goods@;
            let es = sorted_entries(tr.cargo@);
            &&& tr.capital + sale_proceeds(g, es) <= i64::MAX
            &&& forall|j: int|
                0 <= j < es.len() && g.contains_key(es[j].0) ==> (#[trigger] es[j]).1 * g[es[j].0].price <= i64::MAX
        },
        _ => true,
    }
}

impl<F> World<F> {
    /// Trader `t`'s turn in the trading phase: a due arrival docks it; a
    /// docked NPC trader with cargo sells all of it here; anything else is
    /// reported for the host to act on.
    pub fn trader_turn(&mut self, t: usize) -> (r: TraderTurn)
        requires
            old(self).wf(),
            t < old(self).spec_traders().len(),
            !(old(self).spec_traders()[t as int].owner is Player) ==> sale_fits(*old(self), t as int),
        ensures
            final(self).wf(),
            final(self).same_config(old(self)),
            final(self).same_records(old(self)),
            final(self).spec_tick() == old(self).spec_tick(),
            final(self).spec_next_trader_id() == old(self).spec_next_trader_id(),
            final(self).spec_markets().len() == old(self).spec_markets().len(),
            final(self).spec_traders().len() == old(self).spec_traders().len(),
            forall|k: int| 0 <= k < final(self).spec_traders().len() && k != t ==> #[trigger] final(self).spec_traders()[k] == old(self).spec_traders()[k],
            ({
                let tr = old(self).spec_traders()[t as int]@;
                let loc = settled_location(*old(self), t as int);
                match loc {
                    TraderLocation::Destroyed { respawn } => {
                        &&& r == TraderTurn::Destroyed { due: old(self).spec_tick().0 >= respawn.0 }
                        &&& final(self).spec_traders() == old(self).spec_traders()
                        &&& final(self).spec_markets() == old(self).spec_markets()
                    },
                    TraderLocation::InTransit { .. } => {
                        &&& r == TraderTurn::InTransit
                        &&& final(self).spec_traders() == old(self).spec_traders()
                        &&& final(self).spec_markets() == old(self).spec_markets()
                    },
                    TraderLocation::Docked(s) => {
                        let g = old(self).spec_markets()[s.0 as int].goods@;
                        let es = sorted_entries(tr.cargo);
                        if tr.owner is Player {
                            &&& r == TraderTurn::PlayerDocked(s)
                            &&& final(self).spec_traders()[t as int]@ == (TraderView { location: loc, ..tr })
                            &&& final(self).spec_markets() == old(self).spec_markets()
                        } else if es.len() > 0 {
                            &&& r == TraderTurn::Sold(s)
                            &&& final(self).spec_traders()[t as int]@ == (TraderView {
                                location: loc,
                                capital: (tr.capital + sale_proceeds(g, es)) as i64,
                                cargo: unsold(g, es),
                                ..tr
                            })
                            &&& final(self).spec_markets()[s.0 as int].goods@ == add_outputs(g, es)
                            &&& forall|k: int|
                                0 <= k < final(self).spec_markets().len() && k != s.0 ==> #[trigger] final(self).spec_markets()[k]
                                    == old(self).spec_markets()[k]
                        } else {
                            &&& r == TraderTurn::SeekRoute(s)
                            &&& final(self).spec_traders()[t as int]@ == (TraderView { location: loc, ..tr })
                            &&& final(self).spec_markets() == old(self).spec_markets()
                        }
                    },
                }
            }),
    {
        let c0 = &self.traders()[t].cargo;
        proof {
            use_type_invariant(c0);
            c0.lemma_sorted_entries();
        }
        if self.respawn_due(t) {
            return TraderTurn::Destroyed { due: true };
        }
        match self.traders()[t].location {
            TraderLocation::Destroyed { .. } => {
                return TraderTurn::Destroyed { due: false };
            },
            _ => {},
        }
        let docked = self.resolve_arrival(t);
        let sys = match docked {
            Some(s) => s,
            None => {
                return TraderTurn::InTransit;
            },
        };
        if self.traders()[t].is_player() {
            return TraderTurn::PlayerDocked(sys);
        }
        let c1 = &self.traders()[t].cargo;
        proof {
            use_type_invariant(c1);
            c1.lemma_sorted_entries();
        }
        if self.traders()[t].cargo.is_empty() {
            return TraderTurn::SeekRoute(sys);
        }
        self.sell_all(t);
        TraderTurn::Sold(sys)
    }
}

impl<F> World<F> {
    /// The destination of trader `t` when it is in transit with cargo aboard:
    /// pirates prey on laden ships only, and lie in wait at the destination.
    pub fn ambush_exposure(&self, t: usize) -> (r: Option<SystemId>)
        requires
            t < self.spec_traders().len(),
        ensures
            r == (match self.spec_traders()[t as int].location {
                TraderLocation::InTransit { dest, .. } => if self.spec_traders()[t as int].cargo@ != Map::<CommodityId, Quantity>::empty() {
                    Some(dest)
                } else {
                    None
                },
                _ => None::<SystemId>,
            }),
    {
        match self.traders()[t].location {
            TraderLocation::InTransit { dest, .. } => {
                if self.traders()[t].cargo.is_empty() {
                    None
                } else {
                    Some(dest)
                }
            },
            _ => None,
        }
    }
}

/// The neighbour an empty trader with no trade at hand deadheads to: the one
/// whose best onward trade scores highest, ties going to the smaller system
/// id; `None` when no neighbour offers a trade. `onward[k]` is the score of the
/// best trade from neighbour `k`, if any.
pub open spec fn reposition_choice(onward: Seq<(SystemId, Option<Money>)>) -> Option<(SystemId, Money)>
    decreases onward.len(),
{
    if onward.len() == 0 {
        None
    } else {
        let prev = reposition_choice(onward.drop_last());
        let (n, s) = onward.last();
        match s {
            None => prev,
            Some(score) => match prev {
                None => Some((n, score)),
                Some((bn, bs)) => if score > bs || (score == bs && n.0 < bn.0) {
                    Some((n, score))
                } else {
                    prev
                },
            },
        }
    }
}

/// Pick the neighbour to deadhead to (see [`reposition_choice`]).
pub fn best_reposition(onward: &[(SystemId, Option<Money>)]) -> (r: Option<SystemId>)
    ensures
        r == (match reposition_choice(onward@) {
            Some((n, _)) => Some(n),
            None => None::<SystemId>,
        }),
{
    let n = onward.len();
    let mut best: Option<(SystemId, Money)> = None;
    let mut i: usize = 0;
    assert(onward@.take(0) =~= Seq::<(SystemId, Option<Money>)>::empty());
    while i < n
        invariant
            n == onward@.len(),
            i <= n,
            best == reposition_choice(onward@.take(i as int)),
        decreases n - i,
    {
        let (sys, score) = onward[i];
        proof {
            assert(onward@.take(i + 1).drop_last() =~= onward@.take(i as int));
            assert(onward@.take(i + 1).last() == onward@[i as int]);
        }
        match score {
            None => {},
            Some(s) => {
                let better = match best {
                    None => true,
                    Some((bn, bs)) => s > bs || (s == bs && sys.0 < bn.0),
                };
                if better {
                    best = Some((sys, s));
                }
            },
        }
        i = i + 1;
    }
    assert(onward@.take(n as int) =~= onward@);
    match best {
        Some((sys, _)) => Some(sys),
        None => None,
    }
}

} // verus!
