//! NPC traders: the agents whose arbitrage self-corrects the economy.
//!
//! A trader runs a buy-low / travel / sell-high cycle over single jumps. Buying
//! draws stock from the source (raising its price) and selling adds stock to the
//! destination (lowering its price), so every executed trade narrows the very
//! differential it exploited.

use vstd::prelude::*;

use crate::command::{Owner, PlayerId};
use crate::idmap::CommodityMap;
use crate::ids::{CommodityId, ShipId, SystemId};
use crate::time::Tick;
use crate::{Money, Quantity};

verus! {

/// Where a trader is right now.
#[derive(Debug, Clone, Copy, PartialEq, Eq, Structural)]
pub enum TraderLocation {
    /// Parked at a system, able to trade.
    Docked(SystemId),
    /// Between systems; departed `origin` at tick `departure` and becomes
    /// `Docked(dest)` at tick `arrival`.
    InTransit { origin: SystemId, dest: SystemId, departure: Tick, arrival: Tick },
    /// Destroyed by pirates; respawns (empty, at a random system) at `respawn`.
    Destroyed { respawn: Tick },
}

/// A stable, never-reused handle for a trader: assigned once, monotonically; a
/// stale id simply fails to resolve.
#[derive(Debug, Clone, Copy, PartialEq, Eq, Structural, PartialOrd, Ord, Hash)]
pub struct TraderId(pub u64);

/// A trading ship: NPC by default, or player-owned when created by a command.
#[derive(Debug)]
pub struct Trader {
    /// Stable handle (see [`TraderId`]).
    pub id: TraderId,
    pub ship: ShipId,
    /// Who controls this trader.
    pub owner: Owner,
    pub capital: Money,
    pub location: TraderLocation,
    /// Held goods, by commodity, in ascending id order.
    pub cargo: CommodityMap<Quantity>,
}

/// Total units in a sequence of cargo entries.
pub open spec fn units(s: Seq<(CommodityId, Quantity)>) -> int
    decreases s.len(),
{
    if s.len() == 0 {
        0
    } else {
        units(s.drop_last()) + s.last().1
    }
}

impl Trader {
    /// A new NPC trader docked at `at`.
    pub fn new(id: TraderId, ship: ShipId, capital: Money, at: SystemId) -> (r: Self)
        ensures
            r.id == id,
            r.ship == ship,
            r.owner == Owner::Npc,
            r.capital == capital,
            r.location == TraderLocation::Docked(at),
            r.cargo@ == Map::<CommodityId, Quantity>::empty(),
    {
        Trader {
            id,
            ship,
            owner: Owner::Npc,
            capital,
            location: TraderLocation::Docked(at),
            cargo: CommodityMap::new(),
        }
    }

    /// A new player-owned trader docked at `at`.
    pub fn owned(id: TraderId, ship: ShipId, capital: Money, at: SystemId, player: PlayerId) -> (r: Self)
        ensures
            r.id == id,
            r.ship == ship,
            r.owner == Owner::Player(player),
            r.capital == capital,
            r.location == TraderLocation::Docked(at),
            r.cargo@ == Map::<CommodityId, Quantity>::empty(),
    {
        let t = Self::new(id, ship, capital, at);
        Trader { owner: Owner::Player(player), ..t }
    }

    /// Whether a player controls this trader.
    pub fn is_player(&self) -> (r: bool)
        ensures
            r == (self.owner is Player),
    {
        match self.owner {
            Owner::Player(_) => true,
            Owner::Npc => false,
        }
    }

    /// Total units held, over all commodities.
    pub fn cargo_units(&self) -> (r: u32)
        requires
            units(self.cargo.spec_entries()) <= u32::MAX,
        ensures
            r == units(self.cargo.spec_entries()),
    {
        let ghost s = self.cargo.spec_entries();
        let n = self.cargo.len();
        let mut total: u32 = 0;
        let mut i: usize = 0;
        proof {
            assert(s.take(0) =~= Seq::<(CommodityId, Quantity)>::empty());
            lemma_units_prefix_bounded(s, 0);
        }
        while i < n
            invariant
                n == s.len(),
                s == self.cargo.spec_entries(),
                units(s) <= u32::MAX,
                i <= n,
                total == units(s.take(i as int)),
            decreases n - i,
        {
            proof {
                assert(s.take(i + 1).drop_last() =~= s.take(i as int));
                lemma_units_prefix_bounded(s, i + 1);
            }
            total = total + *self.cargo.value_at(i);
            i = i + 1;
        }
        assert(s.take(n as int) =~= s);
        total
    }
}

/// Units in a prefix never exceed the units in the whole.
pub proof fn lemma_units_prefix_bounded(s: Seq<(CommodityId, Quantity)>, k: int)
    requires
        0 <= k <= s.len(),
    ensures
        0 <= units(s.take(k)) <= units(s),
    decreases s.len() - k,
{
    if k == s.len() {
        assert(s.take(k) =~= s);
        lemma_units_nonneg(s);
    } else {
        lemma_units_prefix_bounded(s, k + 1);
        assert(s.take(k + 1).drop_last() =~= s.take(k));
        lemma_units_nonneg(s.take(k));
    }
}

/// Unit totals are never negative.
pub proof fn lemma_units_nonneg(s: Seq<(CommodityId, Quantity)>)
    ensures
        units(s) >= 0,
    decreases s.len(),
{
    if s.len() > 0 {
        lemma_units_nonneg(s.drop_last());
    }
}

/// A chosen single-commodity trade: buy `qty` of `commodity` here at `unit_cost`,
/// carry it to `dest`. `profit` is the raw total spread; `score` is the value
/// trades are ranked by.
#[derive(Debug, Clone, Copy, PartialEq, Eq, Structural)]
pub struct TradePlan {
    pub commodity: CommodityId,
    pub dest: SystemId,
    pub qty: Quantity,
    pub unit_cost: Money,
    pub profit: Money,
    pub score: Money,
}

} // verus!

verus! {

/// What a neighbouring market offers a route planner: its system and goods.
pub open spec fn market_offer(m: &crate::market::Market) -> (SystemId, Map<CommodityId, crate::market::MarketGood>) {
    (m.system, m.goods@)
}

/// Units of a good a trader can fill: limited by capital at the buy price
/// (floored at 1), hold space by unit mass (floored at 1), and stock. Zero or
/// less means none.
pub open spec fn fill_qty(good: crate::market::MarketGood, mass: u32, capital: Money, capacity: u32) -> int {
    let m = if mass == 0 { 1 } else { mass as int };
    let buy = if good.price < 1 { 1 } else { good.price as int };
    if capital <= 0 {
        0
    } else {
        let affordable = capital as int / buy;
        let by_mass = capacity as int / m;
        let a = if affordable < by_mass { affordable } else { by_mass };
        if a < good.stock { a } else { good.stock as int }
    }
}

/// The plan of buying good `c` here and selling it at neighbour `nb`, if the
/// fill is positive and the neighbour buys it dearer.
pub open spec fn plan_for(
    c: CommodityId,
    good: crate::market::MarketGood,
    nb: (SystemId, Map<CommodityId, crate::market::MarketGood>),
    mass: u32,
    capital: Money,
    capacity: u32,
) -> Option<TradePlan> {
    let qty = fill_qty(good, mass, capital, capacity);
    if qty <= 0 || !nb.1.contains_key(c) {
        None
    } else {
        let per_unit = nb.1[c].price - good.price;
        if per_unit <= 0 {
            None
        } else {
            Some(
                TradePlan {
                    commodity: c,
                    dest: nb.0,
                    qty: qty as u32,
                    unit_cost: good.price,
                    profit: (per_unit * qty) as i64,
                    score: (per_unit * qty) as i64,
                },
            )
        }
    }
}

/// The plans for good `c` over the neighbours, in neighbour order.
pub open spec fn good_options(
    c: CommodityId,
    good: crate::market::MarketGood,
    nbs: Seq<(SystemId, Map<CommodityId, crate::market::MarketGood>)>,
    mass: u32,
    capital: Money,
    capacity: u32,
) -> Seq<TradePlan>
    decreases nbs.len(),
{
    if nbs.len() == 0 {
        Seq::empty()
    } else {
        good_options(c, good, nbs.drop_last(), mass, capital, capacity) + match plan_for(
            c,
            good,
            nbs.last(),
            mass,
            capital,
            capacity,
        ) {
            Some(p) => seq![p],
            None => Seq::empty(),
        }
    }
}

/// Every feasible buy-here/sell-at-a-neighbour plan, goods in ascending id
/// order, then neighbours in order. `masses` gives each commodity's unit mass by
/// index.
pub open spec fn trade_options_spec(
    entries: Seq<(CommodityId, crate::market::MarketGood)>,
    nbs: Seq<(SystemId, Map<CommodityId, crate::market::MarketGood>)>,
    masses: Seq<u32>,
    capital: Money,
    capacity: u32,
) -> Seq<TradePlan>
    decreases entries.len(),
{
    if entries.len() == 0 {
        Seq::empty()
    } else {
        let (c, g) = entries.last();
        trade_options_spec(entries.drop_last(), nbs, masses, capital, capacity) + good_options(
            c,
            g,
            nbs,
            masses[c.0 as int],
            capital,
            capacity,
        )
    }
}

/// The profit of every candidate plan fits in credits.
pub open spec fn options_fit(
    entries: Seq<(CommodityId, crate::market::MarketGood)>,
    nbs: Seq<(SystemId, Map<CommodityId, crate::market::MarketGood>)>,
    masses: Seq<u32>,
    capital: Money,
    capacity: u32,
) -> bool {
    forall|k: int, n: int|
        0 <= k < entries.len() && 0 <= n < nbs.len() && fill_qty(entries[k].1, masses[entries[k].0.0 as int], capital, capacity) > 0
            && (#[trigger] nbs[n]).1.contains_key((#[trigger] entries[k]).0) ==> {
            let per_unit = nbs[n].1[entries[k].0].price - entries[k].1.price;
            &&& i64::MIN <= per_unit <= i64::MAX
            &&& per_unit > 0 ==> per_unit * fill_qty(entries[k].1, masses[entries[k].0.0 as int], capital, capacity) <= i64::MAX
        }
}

/// Every feasible single-commodity trade from `here` to one of `neighbors`:
/// buy as much as capital, hold space and stock allow, where a neighbour buys
/// the good dearer. Each plan's `profit` (and `score`) is the total spread.
/// `unit_mass[c]` is the mass of commodity `c`.
pub fn trade_options(
    here: &crate::market::Market,
    neighbors: &[&crate::market::Market],
    capital: Money,
    cargo_capacity: u32,
    unit_mass: &[u32],
) -> (r: Vec<TradePlan>)
    requires
        forall|k: int| 0 <= k < here.goods.spec_entries().len() ==> (#[trigger] here.goods.spec_entries()[k]).0.0 < unit_mass@.len(),
        options_fit(
            here.goods.spec_entries(),
            neighbors@.map_values(|m: &crate::market::Market| market_offer(m)),
            unit_mass@,
            capital,
            cargo_capacity,
        ),
    ensures
        r@ == trade_options_spec(
            here.goods.spec_entries(),
            neighbors@.map_values(|m: &crate::market::Market| market_offer(m)),
            unit_mass@,
            capital,
            cargo_capacity,
        ),
{
    let ghost es = here.goods.spec_entries();
    let ghost nbs = neighbors@.map_values(|m: &crate::market::Market| market_offer(m));
    let ne = here.goods.len();
    let nn = neighbors.len();
    let mut out: Vec<TradePlan> = Vec::new();
    let mut k: usize = 0;
    assert(es.take(0) =~= Seq::<(CommodityId, crate::market::MarketGood)>::empty());
    while k < ne
        invariant
            ne == es.len(),
            nn == nbs.len(),
            es == here.goods.spec_entries(),
            nbs == neighbors@.map_values(|m: &crate::market::Market| market_offer(m)),
            k <= ne,
            forall|x: int| 0 <= x < es.len() ==> (#[trigger] es[x]).0.0 < unit_mass@.len(),
            options_fit(es, nbs, unit_mass@, capital, cargo_capacity),
            out@ == trade_options_spec(es.take(k as int), nbs, unit_mass@, capital, cargo_capacity),
        decreases ne - k,
    {
        let c = here.goods.key_at(k);
        let good = *here.goods.value_at(k);
        let mass = unit_mass[c.index()];
        let ghost prefix = out@;
        // Fill: capital at the buy price, hold space by unit mass, stock.
        let m: u32 = if mass == 0 { 1 } else { mass };
        let buy: i64 = if good.price < 1 { 1 } else { good.price };
        let qty: i64 = if capital <= 0 {
            0
        } else {
            let affordable: i64 = capital / buy;
            let by_mass: i64 = (cargo_capacity / m) as i64;
            let a: i64 = if affordable < by_mass { affordable } else { by_mass };
            if a < good.stock as i64 { a } else { good.stock as i64 }
        };
        assert(qty == fill_qty(good, mass, capital, cargo_capacity));
        let mut j: usize = 0;
        assert(nbs.take(0) =~= Seq::<(SystemId, Map<CommodityId, crate::market::MarketGood>)>::empty());
        while j < nn
            invariant
                ne == es.len(),
                nn == nbs.len(),
                es == here.goods.spec_entries(),
                nbs == neighbors@.map_values(|m: &crate::market::Market| market_offer(m)),
                k < ne,
                j <= nn,
                c == es[k as int].0,
                good == es[k as int].1,
                mass == unit_mass@[c.0 as int],
                qty == fill_qty(good, mass, capital, cargo_capacity),
                options_fit(es, nbs, unit_mass@, capital, cargo_capacity),
                out@ == prefix + good_options(c, good, nbs.take(j as int), mass, capital, cargo_capacity),
            decreases nn - j,
        {
            let nb = neighbors[j];
            proof {
                assert(nbs.take(j + 1).drop_last() =~= nbs.take(j as int));
                assert(nbs.take(j + 1).last() == nbs[j as int]);
                assert(nbs[j as int] == market_offer(nb));
            }
            if qty > 0 {
                match nb.price(c) {
                    Some(sell) => {
                        proof {
                            assert(nbs[j as int].1.contains_key(es[k as int].0));
                        }
                        let per_unit: i64 = sell - good.price;
                        if per_unit > 0 {
                            let profit: i64 = per_unit * qty;
                            out.push(
                                TradePlan {
                                    commodity: c,
                                    dest: nb.system,
                                    qty: qty as u32,
                                    unit_cost: good.price,
                                    profit,
                                    score: profit,
                                },
                            );
                        }
                    },
                    None => {},
                }
            }
            proof {
                assert(out@ =~= prefix + good_options(c, good, nbs.take(j + 1), mass, capital, cargo_capacity));
            }
            j = j + 1;
        }
        proof {
            assert(nbs.take(nn as int) =~= nbs);
            assert(es.take(k + 1).drop_last() =~= es.take(k as int));
            assert(es.take(k + 1).last() == es[k as int]);
        }
        k = k + 1;
    }
    assert(es.take(ne as int) =~= es);
    out
}

/// `p` ranks before `q`: a higher score, or an equal score and a smaller
/// (commodity, destination) pair.
pub open spec fn ranks_before(p: TradePlan, q: TradePlan) -> bool {
    p.score > q.score || (p.score == q.score && (p.commodity.0 < q.commodity.0 || (p.commodity.0 == q.commodity.0
        && p.dest.0 < q.dest.0)))
}

/// The best of `options`: the highest score, ties broken by commodity then
/// destination id; `None` when there are no options.
pub fn best_trade(options: &Vec<TradePlan>) -> (r: Option<TradePlan>)
    ensures
        r is None <==> options@.len() == 0,
        r matches Some(p) ==> options@.contains(p) && forall|i: int| 0 <= i < options@.len() ==> !ranks_before(
            #[trigger] options@[i],
            p,
        ),
{
    let n = options.len();
    if n == 0 {
        return None;
    }
    let mut best = options[0];
    let mut i: usize = 1;
    assert(options@[0] == best);
    while i < n
        invariant
            n == options@.len(),
            1 <= i <= n,
            options@.contains(best),
            forall|k: int| 0 <= k < i ==> !ranks_before(#[trigger] options@[k], best),
        decreases n - i,
    {
        let p = options[i];
        let better = p.score > best.score || (p.score == best.score && (p.commodity.0 < best.commodity.0 || (p.commodity.0
            == best.commodity.0 && p.dest.0 < best.dest.0)));
        if better {
            best = p;
            assert(options@[i as int] == p);
        }
        i = i + 1;
    }
    Some(best)
}

} // verus!
