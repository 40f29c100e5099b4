//! Properties that span several operations of the library: what one call
//! undoes, what every operation keeps, and what stays unchanged.

use vstd::prelude::*;

use crate::ids::{distinct, intern_result, CommodityId};
use crate::market::{sat_add, MarketGood};
use crate::pricing::spec_smoothed;
use crate::production::{
    add_outputs, apply_n, apply_once, inputs_available, lemma_apply_n_keeps, map_stock, remove_inputs, same_goods_and_prices,
};
use crate::ids::SystemId;
use crate::trader::{fill_qty, good_options, options_fit, plan_for, trade_options_spec, TradePlan};
use crate::command::{Command, CommandError, PlayerId};
use crate::registry::{all_edges, unmirrored, Registry, ResolvedSystem};
use crate::turn::reposition_choice;
use crate::trader::TraderId;
use crate::world::{
    command_fits, command_phase_spec, command_step, find_trader, goods_ok, held, ids_ok, lemma_step_keeps_state_ok, owned_index,
    state_ok, TraderView, WorldState,
};
use crate::event::SimEvent;
use crate::time::Tick;
use crate::world::{entries_mass, hold_used, initial_goods, trailing_at, world_built, World};
use crate::data::ScenarioDef;
use crate::pricing::PricingStrategy;
use crate::idmap::{key_pos, lemma_drop_last_map, lemma_key_pos, lemma_sorted_unique, seq_has_key, seq_to_map, sorted_entries, sorted_keys, CommodityMap};
use crate::play::{commodity_named, lower_seq, parse_action_spec, parse_quantity, system_named, words, Action};
use crate::{Money, Quantity};

verus! {

/// Interning is stable and bidirectional: interning a name a second time
/// returns the same id and leaves the table as the first call left it, the id
/// maps back to the name, and names interned earlier keep their ids.
pub proof fn intern_is_stable_and_bidirectional(t: Seq<Seq<char>>, name: Seq<char>)
    requires
        distinct(t),
        t.len() < u32::MAX,
    ensures
        intern_result(intern_result(t, name).0, name) == intern_result(t, name),
        (intern_result(t, name).1 as int) < intern_result(t, name).0.len(),
        intern_result(t, name).0[intern_result(t, name).1 as int] == name,
        forall|i: int| 0 <= i < t.len() ==> #[trigger] intern_result(t, name).0[i] == t[i],
        distinct(intern_result(t, name).0),
{
    if t.contains(name) {
        let i = t.index_of(name);
        assert(0 <= i < t.len() && t[i] == name);
    } else {
        let t1 = t.push(name);
        assert(t1[t.len() as int] == name);
        assert(t1.contains(name));
        let j = t1.index_of(name);
        assert(0 <= j < t1.len() && t1[j] == name);
        if j != t.len() {
            assert(t[j] == name);
        }
        assert forall|a: int, b: int| 0 <= a < t1.len() && 0 <= b < t1.len() && a != b implies t1[a] != t1[b] by {
            if a < t.len() && b < t.len() {
            } else if a == t.len() {
                assert(t1[b] == t[b]);
            } else {
                assert(t1[a] == t[a]);
            }
        }
    }
}

/// Taking `qty` of a good out of stock and then adding the same amount back
/// restores the market's goods exactly.
pub proof fn remove_then_add_restores_goods(goods: Map<CommodityId, MarketGood>, c: CommodityId, qty: Quantity)
    requires
        goods.contains_key(c),
        goods[c].stock >= qty,
    ensures
        ({
            let g1 = goods.insert(c, MarketGood { stock: (goods[c].stock - qty) as u32, ..goods[c] });
            g1.insert(c, MarketGood { stock: sat_add(g1[c].stock, qty), ..g1[c] })
        }) == goods,
{
    let g1 = goods.insert(c, MarketGood { stock: (goods[c].stock - qty) as u32, ..goods[c] });
    let g2 = g1.insert(c, MarketGood { stock: sat_add(g1[c].stock, qty), ..g1[c] });
    assert(g2[c] == goods[c]);
    assert(g2 =~= goods);
}

/// Sticky prices move toward their target and never past it: the new price
/// lies between the current price and the target, it is no farther from the
/// target than the current price, and a price already at its target stays.
pub proof fn smoothing_moves_toward_target(current: int, target: int)
    requires
        current >= 1,
        target >= 1,
    ensures
        current <= target ==> current <= spec_smoothed(current, target) <= target,
        target <= current ==> target <= spec_smoothed(current, target) <= current,
        spec_smoothed(target, target) == target,
{
    let d = target - current + 2;
    if current <= target {
        assert(d / 5 >= 0);
        assert(d / 5 <= target - current) by {
            if target - current >= 1 {
                assert(d <= 5 * (target - current));
            }
        }
    } else {
        assert(d / 5 <= 0);
        assert(d / 5 >= target - current);
    }
    assert((2int) / 5 == 0);
}

/// A recipe runs at most `count` times and stops early only when starved: if
/// it ran fewer times than asked, its inputs are no longer all in stock. It
/// changes stocks only, and a recipe without inputs always runs `count` times.
pub proof fn recipe_runs_until_starved(
    m: Map<CommodityId, MarketGood>,
    ins: Seq<(CommodityId, Quantity)>,
    outs: Seq<(CommodityId, Quantity)>,
    count: nat,
)
    ensures
        apply_n(m, ins, outs, count).1 <= count,
        apply_n(m, ins, outs, count).1 < count ==> !inputs_available(apply_n(m, ins, outs, count).0, ins),
        same_goods_and_prices(m, apply_n(m, ins, outs, count).0),
        ins.len() == 0 ==> apply_n(m, ins, outs, count).1 == count,
    decreases count,
{
    lemma_apply_n_keeps(m, ins, outs, count);
    if count > 0 && inputs_available(m, ins) {
        recipe_runs_until_starved(apply_once(m, ins, outs), ins, outs, (count - 1) as nat);
    }
}

} // verus!

verus! {

/// `p` buys good `c` (held at `good`) within the trader's means: at least one
/// unit, no more than the stock, what capital affords at the buy price (floored
/// at 1) and what the hold carries at the unit mass (floored at 1).
pub open spec fn within_means(
    p: TradePlan,
    c: CommodityId,
    good: MarketGood,
    mass: u32,
    capital: Money,
    capacity: u32,
) -> bool {
    &&& p.commodity == c
    &&& p.unit_cost == good.price
    &&& 1 <= p.qty <= good.stock
    &&& p.qty * (if good.price < 1 { 1 } else { good.price as int }) <= capital
    &&& p.qty * (if mass == 0 { 1 } else { mass as int }) <= capacity
}

/// `p` sells at neighbour `nb`, which trades its good dearer than the buy
/// price; its profit is the spread over the quantity.
pub open spec fn sells_dearer_at(p: TradePlan, nb: (SystemId, Map<CommodityId, MarketGood>)) -> bool {
    &&& p.dest == nb.0
    &&& nb.1.contains_key(p.commodity)
    &&& nb.1[p.commodity].price > p.unit_cost
    &&& p.profit == (nb.1[p.commodity].price - p.unit_cost) * p.qty
    &&& p.score == p.profit
    &&& p.profit > 0
}

/// The fill is bounded by capital, hold space and stock.
proof fn lemma_fill_bounds(good: MarketGood, mass: u32, capital: Money, capacity: u32)
    requires
        fill_qty(good, mass, capital, capacity) > 0,
    ensures
        fill_qty(good, mass, capital, capacity) <= good.stock,
        fill_qty(good, mass, capital, capacity) * (if good.price < 1 { 1 } else { good.price as int }) <= capital,
        fill_qty(good, mass, capital, capacity) * (if mass == 0 { 1 } else { mass as int }) <= capacity,
{
    let q = fill_qty(good, mass, capital, capacity);
    let m = if mass == 0 { 1 } else { mass as int };
    let buy = if good.price < 1 { 1 } else { good.price as int };
    let affordable = capital as int / buy;
    let by_mass = capacity as int / m;
    assert(q <= affordable && q <= by_mass);
    assert(q * buy <= capital) by (nonlinear_arith)
        requires
            buy >= 1,
            0 < q <= affordable,
            affordable == capital as int / buy,
    ;
    assert(q * m <= capacity) by (nonlinear_arith)
        requires
            m >= 1,
            0 < q <= by_mass,
            by_mass == capacity as int / m,
    ;
}

/// The plans for one good are within the trader's means and sell dearer at
/// one of the neighbours.
proof fn lemma_good_options_feasible(
    c: CommodityId,
    good: MarketGood,
    nbs: Seq<(SystemId, Map<CommodityId, MarketGood>)>,
    mass: u32,
    capital: Money,
    capacity: u32,
)
    requires
        forall|n: int|
            0 <= n < nbs.len() && fill_qty(good, mass, capital, capacity) > 0 && (#[trigger] nbs[n]).1.contains_key(c) ==> {
                let per_unit = nbs[n].1[c].price - good.price;
                &&& i64::MIN <= per_unit <= i64::MAX
                &&& per_unit > 0 ==> per_unit * fill_qty(good, mass, capital, capacity) <= i64::MAX
            },
    ensures
        forall|i: int|
            0 <= i < good_options(c, good, nbs, mass, capital, capacity).len() ==> within_means(
                #[trigger] good_options(c, good, nbs, mass, capital, capacity)[i],
                c,
                good,
                mass,
                capital,
                capacity,
            ) && exists|n: int|
                0 <= n < nbs.len() && sells_dearer_at(good_options(c, good, nbs, mass, capital, capacity)[i], #[trigger] nbs[n]),
    decreases nbs.len(),
{
    if nbs.len() > 0 {
        let pre = nbs.drop_last();
        assert forall|n: int|
            0 <= n < pre.len() && fill_qty(good, mass, capital, capacity) > 0 && (#[trigger] pre[n]).1.contains_key(c) implies {
                let per_unit = pre[n].1[c].price - good.price;
                &&& i64::MIN <= per_unit <= i64::MAX
                &&& per_unit > 0 ==> per_unit * fill_qty(good, mass, capital, capacity) <= i64::MAX
            } by {
            assert(pre[n] == nbs[n]);
        }
        lemma_good_options_feasible(c, good, pre, mass, capital, capacity);
        let head = good_options(c, good, pre, mass, capital, capacity);
        let all = good_options(c, good, nbs, mass, capital, capacity);
        let last = nbs.len() - 1;
        assert forall|i: int| 0 <= i < all.len() implies within_means(#[trigger] all[i], c, good, mass, capital, capacity)
            && exists|n: int| 0 <= n < nbs.len() && sells_dearer_at(all[i], #[trigger] nbs[n]) by {
            if i < head.len() {
                assert(all[i] == head[i]);
                let n = choose|n: int| 0 <= n < pre.len() && sells_dearer_at(head[i], #[trigger] pre[n]);
                assert(pre[n] == nbs[n]);
            } else {
                let q = fill_qty(good, mass, capital, capacity);
                lemma_fill_bounds(good, mass, capital, capacity);
                let nb = nbs[last];
                assert(nb == nbs.last());
                assert(plan_for(c, good, nb, mass, capital, capacity) is Some);
                assert(all[i] == plan_for(c, good, nb, mass, capital, capacity)->0);
                let per_unit = nb.1[c].price - good.price;
                assert(per_unit > 0 && q > 0);
                assert(per_unit * q > 0) by (nonlinear_arith)
                    requires
                        per_unit > 0,
                        q > 0,
                ;
                assert(sells_dearer_at(all[i], nbs[last]));
            }
        }
    }
}

/// Every trade the planner offers is feasible: the trader can afford it, carry
/// it and find it in stock, it buys at least one unit, and the destination is
/// a neighbour that buys the good dearer, so its profit is positive.
pub proof fn trade_options_are_feasible(
    entries: Seq<(CommodityId, MarketGood)>,
    nbs: Seq<(SystemId, Map<CommodityId, MarketGood>)>,
    masses: Seq<u32>,
    capital: Money,
    capacity: u32,
)
    requires
        forall|k: int| 0 <= k < entries.len() ==> (#[trigger] entries[k]).0.0 < masses.len(),
        options_fit(entries, nbs, masses, capital, capacity),
    ensures
        forall|i: int|
            0 <= i < trade_options_spec(entries, nbs, masses, capital, capacity).len() ==> {
                let p = #[trigger] trade_options_spec(entries, nbs, masses, capital, capacity)[i];
                &&& exists|k: int|
                    0 <= k < entries.len() && within_means(
                        p,
                        (#[trigger] entries[k]).0,
                        entries[k].1,
                        masses[entries[k].0.0 as int],
                        capital,
                        capacity,
                    )
                &&& exists|n: int| 0 <= n < nbs.len() && sells_dearer_at(p, #[trigger] nbs[n])
            },
    decreases entries.len(),
{
    if entries.len() > 0 {
        let pre = entries.drop_last();
        assert forall|k: int| 0 <= k < pre.len() implies (#[trigger] pre[k]).0.0 < masses.len() by {
            assert(pre[k] == entries[k]);
        }
        assert forall|k: int, n: int|
            0 <= k < pre.len() && 0 <= n < nbs.len() && fill_qty(pre[k].1, masses[pre[k].0.0 as int], capital, capacity) > 0
                && (#[trigger] nbs[n]).1.contains_key((#[trigger] pre[k]).0) implies {
                let per_unit = nbs[n].1[pre[k].0].price - pre[k].1.price;
                &&& i64::MIN <= per_unit <= i64::MAX
                &&& per_unit > 0 ==> per_unit * fill_qty(pre[k].1, masses[pre[k].0.0 as int], capital, capacity) <= i64::MAX
            } by {
            assert(pre[k] == entries[k]);
        }
        trade_options_are_feasible(pre, nbs, masses, capital, capacity);
        let last = entries.len() - 1;
        let (c, g) = entries.last();
        assert(entries[last] == entries.last());
        let mass = masses[c.0 as int];
        assert forall|n: int|
            0 <= n < nbs.len() && fill_qty(g, mass, capital, capacity) > 0 && (#[trigger] nbs[n]).1.contains_key(c) implies {
                let per_unit = nbs[n].1[c].price - g.price;
                &&& i64::MIN <= per_unit <= i64::MAX
                &&& per_unit > 0 ==> per_unit * fill_qty(g, mass, capital, capacity) <= i64::MAX
            } by {
            assert(entries[last] == entries.last());
        }
        lemma_good_options_feasible(c, g, nbs, mass, capital, capacity);
        let head = trade_options_spec(pre, nbs, masses, capital, capacity);
        let tail = good_options(c, g, nbs, mass, capital, capacity);
        let all = trade_options_spec(entries, nbs, masses, capital, capacity);
        assert(all == head + tail);
        assert forall|i: int| 0 <= i < all.len() implies {
            let p = #[trigger] all[i];
            &&& exists|k: int|
                0 <= k < entries.len() && within_means(
                    p,
                    (#[trigger] entries[k]).0,
                    entries[k].1,
                    masses[entries[k].0.0 as int],
                    capital,
                    capacity,
                )
            &&& exists|n: int| 0 <= n < nbs.len() && sells_dearer_at(p, #[trigger] nbs[n])
        } by {
            if i < head.len() {
                assert(all[i] == head[i]);
                let k = choose|k: int|
                    0 <= k < pre.len() && within_means(
                        head[i],
                        (#[trigger] pre[k]).0,
                        pre[k].1,
                        masses[pre[k].0.0 as int],
                        capital,
                        capacity,
                    );
                assert(pre[k] == entries[k]);
            } else {
                assert(all[i] == tail[i - head.len()]);
                assert(within_means(all[i], entries[last].0, entries[last].1, masses[entries[last].0.0 as int], capital, capacity));
            }
        }
    }
}

} // verus!

verus! {

/// Every command of a phase is either applied or rejected with an error,
/// until the phase stops at a command that does not fit: the applied and
/// rejected counts add up to the number of commands processed.
pub proof fn every_command_is_applied_or_rejected<F>(
    reg: Registry<F>,
    tt: Seq<Seq<Seq<u64>>>,
    s: WorldState,
    cmds: Seq<Command>,
)
    ensures
        ({
            let p = command_phase_spec(reg, tt, s, cmds);
            &&& p.halted is None ==> p.applied + p.errors.len() == cmds.len()
            &&& p.halted matches Some(k) ==> k < cmds.len() && p.applied + p.errors.len() == k
        }),
    decreases cmds.len(),
{
    if cmds.len() > 0 {
        every_command_is_applied_or_rejected(reg, tt, s, cmds.drop_last());
    }
}

/// Trader ids are never reused: a command keeps every id distinct and below
/// the next id to assign, never lowers that next id, and any trader it
/// introduces carries an id that no trader had before.
pub proof fn trader_ids_are_never_reused<F>(reg: Registry<F>, tt: Seq<Seq<Seq<u64>>>, s: WorldState, cmd: Command)
    requires
        state_ok(reg, s),
        command_fits(reg, tt, s, cmd),
        command_step(reg, tt, s, cmd) is Ok,
    ensures
        ({
            let s2 = command_step(reg, tt, s, cmd)->Ok_0;
            &&& ids_ok(s2.traders, s2.next_trader_id)
            &&& s2.next_trader_id >= s.next_trader_id
            &&& forall|i: int|
                0 <= i < s2.traders.len() ==> (exists|j: int| 0 <= j < s.traders.len() && (#[trigger] s.traders[j]).id == (
                #[trigger] s2.traders[i]).id) || s2.traders[i].id.0 >= s.next_trader_id
        }),
{
    lemma_step_keeps_state_ok(reg, tt, s, cmd);
    let s2 = command_step(reg, tt, s, cmd)->Ok_0;
    match cmd {
        Command::Spawn { .. } => {
            assert forall|i: int| 0 <= i < s2.traders.len() implies (exists|j: int|
                0 <= j < s.traders.len() && (#[trigger] s.traders[j]).id == (#[trigger] s2.traders[i]).id)
                || s2.traders[i].id.0 >= s.next_trader_id by {
                if i < s.traders.len() {
                    assert(s2.traders[i] == s.traders[i]);
                }
            }
        },
        Command::Despawn { player, trader } => {
            let k = owned_index(s.traders, trader, player)->Ok_0;
            assert forall|i: int| 0 <= i < s2.traders.len() implies (exists|j: int|
                0 <= j < s.traders.len() && (#[trigger] s.traders[j]).id == (#[trigger] s2.traders[i]).id)
                || s2.traders[i].id.0 >= s.next_trader_id by {
                if i < k {
                    assert(s2.traders[i] == s.traders[i]);
                } else {
                    assert(s2.traders[i] == s.traders[i + 1]);
                }
            }
        },
        _ => {
            assert forall|i: int| 0 <= i < s2.traders.len() implies (exists|j: int|
                0 <= j < s.traders.len() && (#[trigger] s.traders[j]).id == (#[trigger] s2.traders[i]).id)
                || s2.traders[i].id.0 >= s.next_trader_id by {
                assert(s2.traders[i].id == s.traders[i].id);
            }
        },
    }
}

/// With trader ids distinct, the slot found for an id is the one slot that
/// holds it.
proof fn lemma_find_unique(ts: Seq<TraderView>, next: u64, i: int)
    requires
        ids_ok(ts, next),
        0 <= i < ts.len(),
    ensures
        find_trader(ts, ts[i].id) == Some(i),
{
    assert(ts[i].id == ts[i].id);
    let j = choose|j: int| 0 <= j < ts.len() && (#[trigger] ts[j]).id == ts[i].id;
    assert(j == i);
}

/// Selling what was just bought undoes the purchase: the market's stock, the
/// trader's capital and hold all return to what they were, provided the hold
/// held no empty entry for the good.
pub proof fn selling_undoes_buying<F>(
    reg: Registry<F>,
    tt: Seq<Seq<Seq<u64>>>,
    s: WorldState,
    player: PlayerId,
    trader: TraderId,
    commodity: CommodityId,
    qty: Quantity,
)
    requires
        state_ok(reg, s),
        command_fits(reg, tt, s, Command::Buy { player, trader, commodity, qty }),
        command_step(reg, tt, s, Command::Buy { player, trader, commodity, qty }) is Ok,
        ({
            let i = owned_index(s.traders, trader, player)->Ok_0;
            s.traders[i].cargo.contains_key(commodity) ==> s.traders[i].cargo[commodity] > 0
        }),
    ensures
        command_step(
            reg,
            tt,
            command_step(reg, tt, s, Command::Buy { player, trader, commodity, qty })->Ok_0,
            Command::Sell { player, trader, commodity, qty },
        ) == Ok::<WorldState, CommandError>(s),
{
    let c = commodity;
    let s1 = command_step(reg, tt, s, Command::Buy { player, trader, commodity, qty })->Ok_0;
    let i = owned_index(s.traders, trader, player)->Ok_0;
    let t = s.traders[i];
    let sys = t.location->Docked_0;
    let g = s.goods[sys.0 as int];
    let cost = g[c].price * qty;
    assert(g[c].price >= 1) by {
        assert(goods_ok(reg, s.goods[sys.0 as int]));
    }
    assert(0 <= cost <= t.capital);
    let t1 = s1.traders[i];
    assert(t1.id == t.id && t1.owner == t.owner);
    lemma_step_keeps_state_ok(reg, tt, s, Command::Buy { player, trader, commodity, qty });
    lemma_find_unique(s1.traders, s1.next_trader_id, i);
    lemma_find_unique(s.traders, s.next_trader_id, i);
    assert(owned_index(s1.traders, trader, player) == Ok::<int, CommandError>(i));
    let g1 = s1.goods[sys.0 as int];
    assert(g1 == g.insert(c, MarketGood { stock: (g[c].stock - qty) as u32, ..g[c] }));
    assert(held(t1.cargo, c) == held(t.cargo, c) + qty);
    let s2 = command_step(reg, tt, s1, Command::Sell { player, trader, commodity, qty })->Ok_0;
    assert(command_step(reg, tt, s1, Command::Sell { player, trader, commodity, qty }) is Ok);
    remove_then_add_restores_goods(g, c, qty);
    assert(s2.goods =~= s.goods);
    let t2 = s2.traders[i];
    assert(t2.capital == t.capital);
    if t.cargo.contains_key(c) {
        assert(t2.cargo =~= t.cargo);
    } else {
        assert(t2.cargo =~= t.cargo);
    }
    assert(t2 == t);
    assert(s2.traders =~= s.traders);
    assert(s2 == s);
}

/// Buying and selling move goods and credits between a market and a hold at
/// the market's price, creating or destroying neither: the market's stock plus
/// the hold's units, and the trader's capital plus the hold valued at that
/// price, are what they were (a sale that fills the stock to its limit
/// excepted). The price, every other market and every other trader stay.
pub proof fn trading_conserves_goods_and_value<F>(reg: Registry<F>, tt: Seq<Seq<Seq<u64>>>, s: WorldState, cmd: Command)
    requires
        state_ok(reg, s),
        command_fits(reg, tt, s, cmd),
        cmd is Buy || cmd is Sell,
        command_step(reg, tt, s, cmd) is Ok,
        cmd matches Command::Sell { player, trader, commodity, qty } ==> ({
            let i = owned_index(s.traders, trader, player)->Ok_0;
            let sys = s.traders[i].location->Docked_0;
            s.goods[sys.0 as int][commodity].stock + qty <= u32::MAX
        }),
    ensures
        ({
            let (player, trader, c) = match cmd {
                Command::Buy { player, trader, commodity, .. } => (player, trader, commodity),
                Command::Sell { player, trader, commodity, .. } => (player, trader, commodity),
                _ => arbitrary(),
            };
            let s2 = command_step(reg, tt, s, cmd)->Ok_0;
            let i = owned_index(s.traders, trader, player)->Ok_0;
            let sys = s.traders[i].location->Docked_0.0 as int;
            let price = s.goods[sys][c].price;
            &&& s2.goods[sys].contains_key(c)
            &&& s2.goods[sys][c].price == price
            &&& s2.goods[sys][c].stock + held(s2.traders[i].cargo, c) == s.goods[sys][c].stock + held(s.traders[i].cargo, c)
            &&& s2.traders[i].capital + price * held(s2.traders[i].cargo, c) == s.traders[i].capital + price * held(
                s.traders[i].cargo,
                c,
            )
            &&& s2.goods.len() == s.goods.len()
            &&& forall|j: int| 0 <= j < s.goods.len() && j != sys ==> #[trigger] s2.goods[j] == s.goods[j]
            &&& s2.traders.len() == s.traders.len()
            &&& forall|k: int| 0 <= k < s.traders.len() && k != i ==> #[trigger] s2.traders[k] == s.traders[k]
        }),
{
    match cmd {
        Command::Buy { player, trader, commodity: c, qty } => {
            let i = owned_index(s.traders, trader, player)->Ok_0;
            let t = s.traders[i];
            let sys = t.location->Docked_0.0 as int;
            let price = s.goods[sys][c].price;
            assert(t.capital - price * qty >= 0);
            assert(price * (held(t.cargo, c) + qty) == price * held(t.cargo, c) + price * qty) by (nonlinear_arith);
        },
        Command::Sell { player, trader, commodity: c, qty } => {
            let i = owned_index(s.traders, trader, player)->Ok_0;
            let t = s.traders[i];
            let sys = t.location->Docked_0.0 as int;
            let price = s.goods[sys][c].price;
            assert(price * (held(t.cargo, c) - qty) == price * held(t.cargo, c) - price * qty) by (nonlinear_arith);
        },
        _ => {},
    }
}

} // verus!

verus! {

/// A rejected command changes nothing: the phase goes on from the same state,
/// with the command's error recorded and the applied count unchanged.
pub proof fn a_rejected_command_changes_nothing<F>(
    reg: Registry<F>,
    tt: Seq<Seq<Seq<u64>>>,
    s: WorldState,
    cmds: Seq<Command>,
    cmd: Command,
)
    requires
        command_phase_spec(reg, tt, s, cmds).halted is None,
        command_fits(reg, tt, command_phase_spec(reg, tt, s, cmds).state, cmd),
        command_step(reg, tt, command_phase_spec(reg, tt, s, cmds).state, cmd) is Err,
    ensures
        ({
            let p = command_phase_spec(reg, tt, s, cmds);
            let q = command_phase_spec(reg, tt, s, cmds.push(cmd));
            &&& q.state == p.state
            &&& q.applied == p.applied
            &&& q.errors == p.errors.push(command_step(reg, tt, p.state, cmd)->Err_0)
            &&& q.halted is None
        }),
{
    assert(cmds.push(cmd).drop_last() =~= cmds);
}

/// Registering a handler makes resolution find it under its name, and leaves
/// every other name resolving as before.
pub proof fn resolving_finds_the_registered_handler<T>(m: Map<Seq<char>, T>, name: Seq<char>, value: T, other: Seq<char>)
    requires
        other != name,
    ensures
        m.insert(name, value).contains_key(name),
        m.insert(name, value)[name] == value,
        m.insert(name, value).contains_key(other) == m.contains_key(other),
        m.contains_key(other) ==> m.insert(name, value)[other] == m[other],
{
}

/// After a tick, the events at the end of the log that carry its tick are
/// exactly the events recorded during it, in order, provided the log did not
/// already end with events of that tick.
pub proof fn a_tick_reads_back_its_events(es: Seq<SimEvent>, tick: Tick, new: Seq<SimEvent>)
    requires
        es.len() == 0 || es.last().tick != tick,
        forall|i: int| 0 <= i < new.len() ==> (#[trigger] new[i]).tick == tick,
    ensures
        trailing_at(es + new, tick) == new,
    decreases new.len(),
{
    if new.len() == 0 {
        assert(es + new =~= es);
    } else {
        let pre = new.drop_last();
        assert forall|i: int| 0 <= i < pre.len() implies (#[trigger] pre[i]).tick == tick by {
            assert(pre[i] == new[i]);
        }
        a_tick_reads_back_its_events(es, tick, pre);
        assert((es + new).drop_last() =~= es + pre);
        assert((es + new).last() == new.last());
        assert(new[new.len() - 1] == new.last());
        assert(pre.push(new.last()) =~= new);
    }
}

/// Dropping the oldest event from a log that holds more than the latest
/// tick's events leaves that tick's events untouched.
pub proof fn dropping_the_oldest_event_keeps_the_latest(es: Seq<SimEvent>, tick: Tick)
    requires
        trailing_at(es, tick).len() < es.len(),
    ensures
        trailing_at(es.drop_first(), tick) == trailing_at(es, tick),
    decreases es.len(),
{
    if es.last().tick != tick {
        if es.len() >= 2 {
            assert(es.drop_first().last() == es.last());
        }
    } else {
        let pre = es.drop_last();
        assert(trailing_at(es, tick) == trailing_at(pre, tick).push(es.last()));
        dropping_the_oldest_event_keeps_the_latest(pre, tick);
        assert(es.drop_first().drop_last() =~= pre.drop_first());
        assert(es.drop_first().last() == es.last());
    }
}

} // verus!

verus! {

/// Despawning a trader retires its id: afterwards no trader holds it, and it
/// lies below the next id to assign, so it is never handed out again.
pub proof fn despawning_retires_the_id<F>(
    reg: Registry<F>,
    tt: Seq<Seq<Seq<u64>>>,
    s: WorldState,
    player: PlayerId,
    trader: TraderId,
)
    requires
        state_ok(reg, s),
        command_step(reg, tt, s, Command::Despawn { player, trader }) is Ok,
    ensures
        ({
            let s2 = command_step(reg, tt, s, Command::Despawn { player, trader })->Ok_0;
            &&& find_trader(s2.traders, trader) is None
            &&& trader.0 < s2.next_trader_id
        }),
{
    let k = owned_index(s.traders, trader, player)->Ok_0;
    assert(s.traders[k].id == trader);
    let s2 = command_step(reg, tt, s, Command::Despawn { player, trader })->Ok_0;
    assert forall|i: int| 0 <= i < s2.traders.len() implies (#[trigger] s2.traders[i]).id != trader by {
        if i < k {
            assert(s2.traders[i] == s.traders[i]);
        } else {
            assert(s2.traders[i] == s.traders[i + 1]);
        }
    }
}

/// A stale trader id stays stale: if no trader holds an id below the next one
/// to assign, no command brings it back, and every command naming it is
/// answered that the trader is unknown.
pub proof fn a_stale_id_stays_unresolved<F>(
    reg: Registry<F>,
    tt: Seq<Seq<Seq<u64>>>,
    s: WorldState,
    cmd: Command,
    id: TraderId,
)
    requires
        state_ok(reg, s),
        command_fits(reg, tt, s, cmd),
        command_step(reg, tt, s, cmd) is Ok,
        find_trader(s.traders, id) is None,
        id.0 < s.next_trader_id,
    ensures
        ({
            let s2 = command_step(reg, tt, s, cmd)->Ok_0;
            &&& find_trader(s2.traders, id) is None
            &&& id.0 < s2.next_trader_id
            &&& forall|player: PlayerId| #[trigger] owned_index(s2.traders, id, player) == Err::<int, CommandError>(
                CommandError::UnknownTrader,
            )
        }),
{
    trader_ids_are_never_reused(reg, tt, s, cmd);
    let s2 = command_step(reg, tt, s, cmd)->Ok_0;
    assert forall|i: int| 0 <= i < s2.traders.len() implies (#[trigger] s2.traders[i]).id != id by {
        if exists|j: int| 0 <= j < s.traders.len() && (#[trigger] s.traders[j]).id == s2.traders[i].id {
            let j = choose|j: int| 0 <= j < s.traders.len() && (#[trigger] s.traders[j]).id == s2.traders[i].id;
            assert(s.traders[j].id != id);
        }
    }
}

} // verus!

verus! {

/// The total quantity the lines `ls` give for commodity `c`.
pub open spec fn line_total(ls: Seq<(CommodityId, Quantity)>, c: CommodityId) -> int
    decreases ls.len(),
{
    if ls.len() == 0 {
        0
    } else {
        line_total(ls.drop_last(), c) + if ls.last().0 == c {
            ls.last().1 as int
        } else {
            0
        }
    }
}

/// No commodity has two lines in `ls`.
pub open spec fn distinct_lines(ls: Seq<(CommodityId, Quantity)>) -> bool {
    forall|i: int, j: int| 0 <= i < j < ls.len() ==> (#[trigger] ls[i]).0 != (#[trigger] ls[j]).0
}

/// Lines without commodity `c` give none of it.
proof fn lemma_line_total_absent(ls: Seq<(CommodityId, Quantity)>, c: CommodityId)
    requires
        forall|i: int| 0 <= i < ls.len() ==> (#[trigger] ls[i]).0 != c,
    ensures
        line_total(ls, c) == 0,
    decreases ls.len(),
{
    if ls.len() > 0 {
        let p = ls.drop_last();
        assert forall|i: int| 0 <= i < p.len() implies (#[trigger] p[i]).0 != c by {
            assert(p[i] == ls[i]);
        }
        lemma_line_total_absent(p, c);
        assert(ls[ls.len() - 1] == ls.last());
    }
}

/// Line totals are never negative.
proof fn lemma_line_total_nonneg(ls: Seq<(CommodityId, Quantity)>, c: CommodityId)
    ensures
        line_total(ls, c) >= 0,
    decreases ls.len(),
{
    if ls.len() > 0 {
        lemma_line_total_nonneg(ls.drop_last(), c);
    }
}

/// With one line per commodity, all in stock, taking the inputs lowers each
/// traded good's stock by its line.
proof fn lemma_remove_inputs_stock(m: Map<CommodityId, MarketGood>, ins: Seq<(CommodityId, Quantity)>, c: CommodityId)
    requires
        distinct_lines(ins),
        inputs_available(m, ins),
        m.contains_key(c),
    ensures
        remove_inputs(m, ins).contains_key(c),
        remove_inputs(m, ins)[c].stock == m[c].stock - line_total(ins, c),
    decreases ins.len(),
{
    if ins.len() > 0 {
        let p = ins.drop_last();
        assert forall|i: int, j: int| 0 <= i < j < p.len() implies (#[trigger] p[i]).0 != (#[trigger] p[j]).0 by {
            assert(p[i] == ins[i] && p[j] == ins[j]);
        }
        assert forall|i: int| 0 <= i < p.len() implies map_stock(m, (#[trigger] p[i]).0) >= p[i].1 by {
            assert(p[i] == ins[i]);
        }
        lemma_remove_inputs_stock(m, p, c);
        let (cl, ql) = ins.last();
        let last = ins.len() - 1;
        assert(ins[last] == ins.last());
        assert(map_stock(m, ins[last].0) >= ins[last].1);
        crate::production::lemma_remove_inputs_keeps(m, p);
        let m1 = remove_inputs(m, p);
        if m.contains_key(cl) {
            assert forall|i: int| 0 <= i < p.len() implies (#[trigger] p[i]).0 != cl by {
                assert(p[i] == ins[i]);
            }
            lemma_line_total_absent(p, cl);
            lemma_remove_inputs_stock(m, p, cl);
            assert(m1[cl].stock >= ql);
        }
    }
}

/// Adding outputs that do not overflow raises a good's stock by its lines.
proof fn lemma_add_outputs_stock(m: Map<CommodityId, MarketGood>, outs: Seq<(CommodityId, Quantity)>, c: CommodityId)
    requires
        m.contains_key(c),
        m[c].stock + line_total(outs, c) <= u32::MAX,
    ensures
        add_outputs(m, outs).contains_key(c),
        add_outputs(m, outs)[c].stock == m[c].stock + line_total(outs, c),
    decreases outs.len(),
{
    if outs.len() > 0 {
        let p = outs.drop_last();
        lemma_line_total_nonneg(p, c);
        lemma_add_outputs_stock(m, p, c);
    }
}

/// A recipe changes a traded good's stock by its lines, once per application:
/// after running `k` times, the stock of `c` has risen by `k` times what the
/// outputs give of it and fallen by `k` times what the inputs take, provided
/// no commodity has two input lines and the outputs cannot fill the stock to
/// its limit.
pub proof fn recipe_changes_stock_by_its_lines(
    m: Map<CommodityId, MarketGood>,
    ins: Seq<(CommodityId, Quantity)>,
    outs: Seq<(CommodityId, Quantity)>,
    count: nat,
    c: CommodityId,
)
    requires
        distinct_lines(ins),
        m.contains_key(c),
        m[c].stock + count * line_total(outs, c) <= u32::MAX,
    ensures
        apply_n(m, ins, outs, count).0.contains_key(c),
        apply_n(m, ins, outs, count).0[c].stock == m[c].stock + apply_n(m, ins, outs, count).1 * (line_total(outs, c)
            - line_total(ins, c)),
    decreases count,
{
    lemma_line_total_nonneg(outs, c);
    lemma_line_total_nonneg(ins, c);
    if count > 0 && inputs_available(m, ins) {
        let o = line_total(outs, c);
        let i = line_total(ins, c);
        lemma_remove_inputs_stock(m, ins, c);
        let r = remove_inputs(m, ins);
        assert(count * o == (count - 1) * o + o) by (nonlinear_arith);
        assert((count - 1) * o >= 0) by (nonlinear_arith)
            requires
                count >= 1,
                o >= 0,
        ;
        lemma_add_outputs_stock(r, outs, c);
        let m1 = apply_once(m, ins, outs);
        assert(m1[c].stock == m[c].stock - i + o);
        recipe_changes_stock_by_its_lines(m1, ins, outs, (count - 1) as nat, c);
        let k1 = apply_n(m1, ins, outs, (count - 1) as nat).1;
        assert((k1 + 1) * (o - i) == k1 * (o - i) + (o - i)) by (nonlinear_arith);
    } else {
        assert(0 * (line_total(outs, c) - line_total(ins, c)) == 0);
    }
}

} // verus!

verus! {

/// The jump edges of a galaxy are exactly its systems' listed connections:
/// `(a, b)` is an edge when some system with id `a` lists `b`.
pub proof fn edges_are_the_listed_connections<F>(ss: Seq<ResolvedSystem<F>>, a: u32, b: u32)
    ensures
        all_edges(ss).contains((a, b)) <==> exists|i: int, j: int|
            0 <= i < ss.len() && 0 <= j < ss[i].connections@.len() && (#[trigger] ss[i]).id.0 == a
                && (#[trigger] ss[i].connections@[j]).0 == b,
    decreases ss.len(),
{
    if ss.len() > 0 {
        let p = ss.drop_last();
        edges_are_the_listed_connections(p, a, b);
        let last = ss.last();
        let tail = last.connections@.map_values(|c: SystemId| (last.id.0, c.0));
        assert(all_edges(ss) == all_edges(p) + tail);
        if all_edges(ss).contains((a, b)) {
            let k = choose|k: int| 0 <= k < all_edges(ss).len() && all_edges(ss)[k] == (a, b);
            if k < all_edges(p).len() {
                assert(all_edges(p)[k] == (a, b));
                let (i, j) = choose|i: int, j: int|
                    0 <= i < p.len() && 0 <= j < p[i].connections@.len() && (#[trigger] p[i]).id.0 == a
                        && (#[trigger] p[i].connections@[j]).0 == b;
                assert(ss[i] == p[i]);
            } else {
                let j = k - all_edges(p).len();
                assert(tail[j] == (a, b));
                assert(ss[ss.len() - 1] == last);
                assert(ss[ss.len() - 1].connections@[j].0 == b);
            }
        }
        if exists|i: int, j: int|
            0 <= i < ss.len() && 0 <= j < ss[i].connections@.len() && (#[trigger] ss[i]).id.0 == a
                && (#[trigger] ss[i].connections@[j]).0 == b {
            let (i, j) = choose|i: int, j: int|
                0 <= i < ss.len() && 0 <= j < ss[i].connections@.len() && (#[trigger] ss[i]).id.0 == a
                    && (#[trigger] ss[i].connections@[j]).0 == b;
            if i < p.len() {
                assert(p[i] == ss[i]);
                assert(p[i].connections@[j].0 == b);
                assert(all_edges(p).contains((a, b)));
                let k = choose|k: int| 0 <= k < all_edges(p).len() && all_edges(p)[k] == (a, b);
                assert(all_edges(ss)[k] == (a, b));
            } else {
                assert(ss[i] == last);
                assert(tail[j] == (a, b));
                assert(all_edges(ss)[all_edges(p).len() + j] == (a, b));
            }
        }
    }
}

/// One-way jumps are reported completely and only they: an edge is reported
/// exactly when it is an edge of the galaxy and its reverse is not.
pub proof fn every_one_way_jump_is_reported(es: Seq<(u32, u32)>, all: Seq<(u32, u32)>, e: (u32, u32))
    ensures
        unmirrored(es, all).contains(e) <==> es.contains(e) && !all.contains((e.1, e.0)),
    decreases es.len(),
{
    if es.len() > 0 {
        let p = es.drop_last();
        every_one_way_jump_is_reported(p, all, e);
        let l = es.last();
        let tail = if all.contains((l.1, l.0)) {
            Seq::<(u32, u32)>::empty()
        } else {
            seq![l]
        };
        assert(unmirrored(es, all) == unmirrored(p, all) + tail);
        if unmirrored(es, all).contains(e) {
            let k = choose|k: int| 0 <= k < unmirrored(es, all).len() && unmirrored(es, all)[k] == e;
            if k < unmirrored(p, all).len() {
                assert(unmirrored(p, all)[k] == e);
                let j = choose|j: int| 0 <= j < p.len() && p[j] == e;
                assert(es[j] == e);
            } else {
                assert(tail[k - unmirrored(p, all).len()] == e);
                assert(es[es.len() - 1] == e);
            }
        }
        if es.contains(e) && !all.contains((e.1, e.0)) {
            let j = choose|j: int| 0 <= j < es.len() && es[j] == e;
            if j < p.len() {
                assert(p[j] == e);
                let k = choose|k: int| 0 <= k < unmirrored(p, all).len() && unmirrored(p, all)[k] == e;
                assert(unmirrored(es, all)[k] == e);
            } else {
                assert(l == e);
                assert(unmirrored(es, all)[unmirrored(p, all).len() as int] == e);
            }
        }
    }
}

/// Where an empty trader deadheads: nowhere exactly when no neighbour offers
/// an onward trade; otherwise a listed neighbour whose onward score is at least
/// every other offered score, the smallest such system id winning a tie.
pub proof fn deadheading_goes_where_the_onward_trade_is_best(onward: Seq<(SystemId, Option<Money>)>)
    ensures
        reposition_choice(onward) is None <==> forall|k: int| 0 <= k < onward.len() ==> (#[trigger] onward[k]).1 is None,
        reposition_choice(onward) matches Some((n, s)) ==> {
            &&& exists|k: int| 0 <= k < onward.len() && #[trigger] onward[k] == (n, Some(s))
            &&& forall|k: int|
                0 <= k < onward.len() && (#[trigger] onward[k]).1 is Some ==> {
                    &&& onward[k].1->0 <= s
                    &&& onward[k].1->0 == s ==> n.0 <= onward[k].0.0
                }
        },
    decreases onward.len(),
{
    if onward.len() > 0 {
        let p = onward.drop_last();
        deadheading_goes_where_the_onward_trade_is_best(p);
        let last = onward.len() - 1;
        assert(onward[last] == onward.last());
        assert forall|k: int| 0 <= k < p.len() implies p[k] == onward[k] by {}
        match reposition_choice(onward) {
            Some((n, s)) => {
                assert forall|k: int|
                    0 <= k < onward.len() && (#[trigger] onward[k]).1 is Some implies {
                        &&& onward[k].1->0 <= s
                        &&& onward[k].1->0 == s ==> n.0 <= onward[k].0.0
                    } by {
                    if k < p.len() {
                        assert(p[k] == onward[k]);
                        assert(p[k].1 is Some);
                    }
                }
                if reposition_choice(onward) == reposition_choice(p) {
                    let k = choose|k: int| 0 <= k < p.len() && #[trigger] p[k] == (n, Some(s));
                    assert(onward[k] == (n, Some(s)));
                } else {
                    assert(onward[last] == (n, Some(s)));
                }
            },
            None => {
                assert forall|k: int| 0 <= k < onward.len() implies (#[trigger] onward[k]).1 is None by {
                    if k < p.len() {
                        assert(p[k] == onward[k]);
                    }
                }
            },
        }
        if forall|k: int| 0 <= k < onward.len() ==> (#[trigger] onward[k]).1 is None {
            assert forall|k: int| 0 <= k < p.len() implies (#[trigger] p[k]).1 is None by {
                assert(p[k] == onward[k]);
            }
        }
    }
}

} // verus!

verus! {

/// A market's starting goods are its authored stock lines: a commodity is
/// traded exactly when a line stocks it, and then at the quantity of its last
/// line, which is also its equilibrium, at its base price floored at 1.
pub proof fn a_new_market_starts_at_its_authored_stock<F>(reg: Registry<F>, stock: Seq<(CommodityId, Quantity)>, c: CommodityId)
    ensures
        initial_goods(reg, stock).contains_key(c) <==> exists|j: int| 0 <= j < stock.len() && (#[trigger] stock[j]).0 == c,
        initial_goods(reg, stock).contains_key(c) ==> {
            let g = initial_goods(reg, stock)[c];
            let base = reg.commodity_defs()[c.0 as int].base_price;
            &&& g.equilibrium == g.stock
            &&& g.price == (if base < 1 { 1 } else { base })
            &&& exists|j: int|
                0 <= j < stock.len() && #[trigger] stock[j] == (c, g.stock) && forall|k: int|
                    j < k < stock.len() ==> (#[trigger] stock[k]).0 != c
        },
    decreases stock.len(),
{
    if stock.len() > 0 {
        let p = stock.drop_last();
        a_new_market_starts_at_its_authored_stock(reg, p, c);
        let last = stock.len() - 1;
        assert(stock[last] == stock.last());
        if stock.last().0 == c {
            let g = initial_goods(reg, stock)[c];
            assert(stock[last] == (c, g.stock));
        } else {
            if initial_goods(reg, p).contains_key(c) {
                let g = initial_goods(reg, p)[c];
                let j = choose|j: int|
                    0 <= j < p.len() && #[trigger] p[j] == (c, g.stock) && forall|k: int| j < k < p.len() ==> (#[trigger] p[k]).0 != c;
                assert(stock[j] == p[j]);
                assert forall|k: int| j < k < stock.len() implies (#[trigger] stock[k]).0 != c by {
                    if k < p.len() {
                        assert(stock[k] == p[k]);
                    }
                }
            }
            if exists|j: int| 0 <= j < stock.len() && (#[trigger] stock[j]).0 == c {
                let j = choose|j: int| 0 <= j < stock.len() && (#[trigger] stock[j]).0 == c;
                assert(p[j] == stock[j]);
            }
            if exists|j: int| 0 <= j < p.len() && (#[trigger] p[j]).0 == c {
                let j = choose|j: int| 0 <= j < p.len() && (#[trigger] p[j]).0 == c;
                assert(stock[j] == p[j]);
            }
        }
    }
}

/// A freshly built world's markets start at equilibrium: each system's market
/// trades exactly the commodities its authored stock lists, each with stock
/// and equilibrium at the authored quantity and priced at its base price
/// (floored at 1).
pub proof fn a_new_world_starts_its_markets_at_equilibrium<F>(
    w: World<F>,
    reg: Registry<F>,
    sc: ScenarioDef<F>,
    placements: Seq<SystemId>,
    pricing: Map<Seq<char>, PricingStrategy>,
    i: int,
    c: CommodityId,
)
    requires
        world_built(w, reg, sc, placements, pricing),
        0 <= i < reg.system_list().len(),
    ensures
        ({
            let goods = w.spec_markets()[i].goods@;
            let stock = reg.system_list()[i].initial_stock@;
            let base = reg.commodity_defs()[c.0 as int].base_price;
            &&& goods.contains_key(c) <==> exists|j: int| 0 <= j < stock.len() && (#[trigger] stock[j]).0 == c
            &&& goods.contains_key(c) ==> {
                &&& goods[c].equilibrium == goods[c].stock
                &&& goods[c].price == (if base < 1 { 1 } else { base })
                &&& exists|j: int| 0 <= j < stock.len() && #[trigger] stock[j] == (c, goods[c].stock)
            }
        }),
{
    assert(w.spec_markets()[i].goods@ == initial_goods(reg, reg.system_list()[i].initial_stock@));
    a_new_market_starts_at_its_authored_stock(reg, reg.system_list()[i].initial_stock@, c);
}

} // verus!

verus! {

/// Each documented verb and each of its aliases, in any ASCII case, names its
/// action: `help`/`h`/`?`, `status`/`s`/`look`/`l`, `map`/`m` and
/// `quit`/`q`/`exit` whatever follows; `buy`/`b` and `sell` with a commodity
/// and a positive quantity; `jump`/`j` with a system; `wait`/`w` with a
/// positive count, or alone for one tick.
pub proof fn each_verb_names_its_action<F>(line: Seq<char>, reg: Registry<F>)
    requires
        words(line).len() > 0,
    ensures
        ({
            let ws = words(line);
            let v = lower_seq(ws[0]);
            let rest = ws.drop_first();
            let r = parse_action_spec(line, reg);
            &&& (v == "help"@ || v == "h"@ || v == "?"@) ==> r == Ok::<Action, Seq<char>>(Action::Help)
            &&& (v == "status"@ || v == "s"@ || v == "look"@ || v == "l"@) ==> r == Ok::<Action, Seq<char>>(Action::Status)
            &&& (v == "map"@ || v == "m"@) ==> r == Ok::<Action, Seq<char>>(Action::ShowMap)
            &&& (v == "quit"@ || v == "q"@ || v == "exit"@) ==> r == Ok::<Action, Seq<char>>(Action::Quit)
            &&& ((v == "buy"@ || v == "b"@) && rest.len() == 2 && commodity_named(reg, rest[0]) is Some && parse_quantity(
                rest[1],
            ) is Some) ==> r == Ok::<Action, Seq<char>>(
                Action::Buy(commodity_named(reg, rest[0])->0, parse_quantity(rest[1])->0),
            )
            &&& (v == "sell"@ && rest.len() == 2 && commodity_named(reg, rest[0]) is Some && parse_quantity(rest[1]) is Some)
                ==> r == Ok::<Action, Seq<char>>(
                Action::Sell(commodity_named(reg, rest[0])->0, parse_quantity(rest[1])->0),
            )
            &&& ((v == "jump"@ || v == "j"@) && rest.len() == 1 && system_named(reg, rest[0]) is Some) ==> r == Ok::<
                Action,
                Seq<char>,
            >(Action::Jump(system_named(reg, rest[0])->0))
            &&& ((v == "wait"@ || v == "w"@) && rest.len() == 0) ==> r == Ok::<Action, Seq<char>>(Action::Wait(1))
            &&& ((v == "wait"@ || v == "w"@) && rest.len() > 0 && parse_quantity(rest[0]) is Some) ==> r == Ok::<
                Action,
                Seq<char>,
            >(Action::Wait(parse_quantity(rest[0])->0 as u64))
        }),
{
    reveal_strlit("buy");
    reveal_strlit("b");
    reveal_strlit("sell");
    reveal_strlit("jump");
    reveal_strlit("j");
    reveal_strlit("wait");
    reveal_strlit("w");
    reveal_strlit("status");
    reveal_strlit("s");
    reveal_strlit("look");
    reveal_strlit("l");
    reveal_strlit("map");
    reveal_strlit("m");
    reveal_strlit("help");
    reveal_strlit("h");
    reveal_strlit("?");
    reveal_strlit("quit");
    reveal_strlit("q");
    reveal_strlit("exit");
    assert("buy"@ =~= seq!['b', 'u', 'y']);
    assert("b"@ =~= seq!['b']);
    assert("sell"@ =~= seq!['s', 'e', 'l', 'l']);
    assert("jump"@ =~= seq!['j', 'u', 'm', 'p']);
    assert("j"@ =~= seq!['j']);
    assert("wait"@ =~= seq!['w', 'a', 'i', 't']);
    assert("w"@ =~= seq!['w']);
    assert("status"@ =~= seq!['s', 't', 'a', 't', 'u', 's']);
    assert("s"@ =~= seq!['s']);
    assert("look"@ =~= seq!['l', 'o', 'o', 'k']);
    assert("l"@ =~= seq!['l']);
    assert("map"@ =~= seq!['m', 'a', 'p']);
    assert("m"@ =~= seq!['m']);
    assert("help"@ =~= seq!['h', 'e', 'l', 'p']);
    assert("h"@ =~= seq!['h']);
    assert("?"@ =~= seq!['?']);
    assert("quit"@ =~= seq!['q', 'u', 'i', 't']);
    assert("q"@ =~= seq!['q']);
    assert("exit"@ =~= seq!['e', 'x', 'i', 't']);
    assert("buy"@ != "b"@) by { assert("buy"@.len() != "b"@.len()); }
    assert("buy"@ != "sell"@) by { assert("buy"@.len() != "sell"@.len()); }
    assert("buy"@ != "jump"@) by { assert("buy"@.len() != "jump"@.len()); }
    assert("buy"@ != "j"@) by { assert("buy"@.len() != "j"@.len()); }
    assert("buy"@ != "wait"@) by { assert("buy"@.len() != "wait"@.len()); }
    assert("buy"@ != "w"@) by { assert("buy"@.len() != "w"@.len()); }
    assert("buy"@ != "status"@) by { assert("buy"@.len() != "status"@.len()); }
    assert("buy"@ != "s"@) by { assert("buy"@.len() != "s"@.len()); }
    assert("buy"@ != "look"@) by { assert("buy"@.len() != "look"@.len()); }
    assert("buy"@ != "l"@) by { assert("buy"@.len() != "l"@.len()); }
    assert("buy"@ != "map"@) by { assert("buy"@[0] != "map"@[0]); }
    assert("buy"@ != "m"@) by { assert("buy"@.len() != "m"@.len()); }
    assert("buy"@ != "help"@) by { assert("buy"@.len() != "help"@.len()); }
    assert("buy"@ != "h"@) by { assert("buy"@.len() != "h"@.len()); }
    assert("buy"@ != "?"@) by { assert("buy"@.len() != "?"@.len()); }
    assert("buy"@ != "quit"@) by { assert("buy"@.len() != "quit"@.len()); }
    assert("buy"@ != "q"@) by { assert("buy"@.len() != "q"@.len()); }
    assert("buy"@ != "exit"@) by { assert("buy"@.len() != "exit"@.len()); }
    assert("b"@ != "sell"@) by { assert("b"@.len() != "sell"@.len()); }
    assert("b"@ != "jump"@) by { assert("b"@.len() != "jump"@.len()); }
    assert("b"@ != "j"@) by { assert("b"@[0] != "j"@[0]); }
    assert("b"@ != "wait"@) by { assert("b"@.len() != "wait"@.len()); }
    assert("b"@ != "w"@) by { assert("b"@[0] != "w"@[0]); }
    assert("b"@ != "status"@) by { assert("b"@.len() != "status"@.len()); }
    assert("b"@ != "s"@) by { assert("b"@[0] != "s"@[0]); }
    assert("b"@ != "look"@) by { assert("b"@.len() != "look"@.len()); }
    assert("b"@ != "l"@) by { assert("b"@[0] != "l"@[0]); }
    assert("b"@ != "map"@) by { assert("b"@.len() != "map"@.len()); }
    assert("b"@ != "m"@) by { assert("b"@[0] != "m"@[0]); }
    assert("b"@ != "help"@) by { assert("b"@.len() != "help"@.len()); }
    assert("b"@ != "h"@) by { assert("b"@[0] != "h"@[0]); }
    assert("b"@ != "?"@) by { assert("b"@[0] != "?"@[0]); }
    assert("b"@ != "quit"@) by { assert("b"@.len() != "quit"@.len()); }
    assert("b"@ != "q"@) by { assert("b"@[0] != "q"@[0]); }
    assert("b"@ != "exit"@) by { assert("b"@.len() != "exit"@.len()); }
    assert("sell"@ != "jump"@) by { assert("sell"@[0] != "jump"@[0]); }
    assert("sell"@ != "j"@) by { assert("sell"@.len() != "j"@.len()); }
    assert("sell"@ != "wait"@) by { assert("sell"@[0] != "wait"@[0]); }
    assert("sell"@ != "w"@) by { assert("sell"@.len() != "w"@.len()); }
    assert("sell"@ != "status"@) by { assert("sell"@.len() != "status"@.len()); }
    assert("sell"@ != "s"@) by { assert("sell"@.len() != "s"@.len()); }
    assert("sell"@ != "look"@) by { assert("sell"@[0] != "look"@[0]); }
    assert("sell"@ != "l"@) by { assert("sell"@.len() != "l"@.len()); }
    assert("sell"@ != "map"@) by { assert("sell"@.len() != "map"@.len()); }
    assert("sell"@ != "m"@) by { assert("sell"@.len() != "m"@.len()); }
    assert("sell"@ != "help"@) by { assert("sell"@[0] != "help"@[0]); }
    assert("sell"@ != "h"@) by { assert("sell"@.len() != "h"@.len()); }
    assert("sell"@ != "?"@) by { assert("sell"@.len() != "?"@.len()); }
    assert("sell"@ != "quit"@) by { assert("sell"@[0] != "quit"@[0]); }
    assert("sell"@ != "q"@) by { assert("sell"@.len() != "q"@.len()); }
    assert("sell"@ != "exit"@) by { assert("sell"@[0] != "exit"@[0]); }
    assert("jump"@ != "j"@) by { assert("jump"@.len() != "j"@.len()); }
    assert("jump"@ != "wait"@) by { assert("jump"@[0] != "wait"@[0]); }
    assert("jump"@ != "w"@) by { assert("jump"@.len() != "w"@.len()); }
    assert("jump"@ != "status"@) by { assert("jump"@.len() != "status"@.len()); }
    assert("jump"@ != "s"@) by { assert("jump"@.len() != "s"@.len()); }
    assert("jump"@ != "look"@) by { assert("jump"@[0] != "look"@[0]); }
    assert("jump"@ != "l"@) by { assert("jump"@.len() != "l"@.len()); }
    assert("jump"@ != "map"@) by { assert("jump"@.len() != "map"@.len()); }
    assert("jump"@ != "m"@) by { assert("jump"@.len() != "m"@.len()); }
    assert("jump"@ != "help"@) by { assert("jump"@[0] != "help"@[0]); }
    assert("jump"@ != "h"@) by { assert("jump"@.len() != "h"@.len()); }
    assert("jump"@ != "?"@) by { assert("jump"@.len() != "?"@.len()); }
    assert("jump"@ != "quit"@) by { assert("jump"@[0] != "quit"@[0]); }
    assert("jump"@ != "q"@) by { assert("jump"@.len() != "q"@.len()); }
    assert("jump"@ != "exit"@) by { assert("jump"@[0] != "exit"@[0]); }
    assert("j"@ != "wait"@) by { assert("j"@.len() != "wait"@.len()); }
    assert("j"@ != "w"@) by { assert("j"@[0] != "w"@[0]); }
    assert("j"@ != "status"@) by { assert("j"@.len() != "status"@.len()); }
    assert("j"@ != "s"@) by { assert("j"@[0] != "s"@[0]); }
    assert("j"@ != "look"@) by { assert("j"@.len() != "look"@.len()); }
    assert("j"@ != "l"@) by { assert("j"@[0] != "l"@[0]); }
    assert("j"@ != "map"@) by { assert("j"@.len() != "map"@.len()); }
    assert("j"@ != "m"@) by { assert("j"@[0] != "m"@[0]); }
    assert("j"@ != "help"@) by { assert("j"@.len() != "help"@.len()); }
    assert("j"@ != "h"@) by { assert("j"@[0] != "h"@[0]); }
    assert("j"@ != "?"@) by { assert("j"@[0] != "?"@[0]); }
    assert("j"@ != "quit"@) by { assert("j"@.len() != "quit"@.len()); }
    assert("j"@ != "q"@) by { assert("j"@[0] != "q"@[0]); }
    assert("j"@ != "exit"@) by { assert("j"@.len() != "exit"@.len()); }
    assert("wait"@ != "w"@) by { assert("wait"@.len() != "w"@.len()); }
    assert("wait"@ != "status"@) by { assert("wait"@.len() != "status"@.len()); }
    assert("wait"@ != "s"@) by { assert("wait"@.len() != "s"@.len()); }
    assert("wait"@ != "look"@) by { assert("wait"@[0] != "look"@[0]); }
    assert("wait"@ != "l"@) by { assert("wait"@.len() != "l"@.len()); }
    assert("wait"@ != "map"@) by { assert("wait"@.len() != "map"@.len()); }
    assert("wait"@ != "m"@) by { assert("wait"@.len() != "m"@.len()); }
    assert("wait"@ != "help"@) by { assert("wait"@[0] != "help"@[0]); }
    assert("wait"@ != "h"@) by { assert("wait"@.len() != "h"@.len()); }
    assert("wait"@ != "?"@) by { assert("wait"@.len() != "?"@.len()); }
    assert("wait"@ != "quit"@) by { assert("wait"@[0] != "quit"@[0]); }
    assert("wait"@ != "q"@) by { assert("wait"@.len() != "q"@.len()); }
    assert("wait"@ != "exit"@) by { assert("wait"@[0] != "exit"@[0]); }
    assert("w"@ != "status"@) by { assert("w"@.len() != "status"@.len()); }
    assert("w"@ != "s"@) by { assert("w"@[0] != "s"@[0]); }
    assert("w"@ != "look"@) by { assert("w"@.len() != "look"@.len()); }
    assert("w"@ != "l"@) by { assert("w"@[0] != "l"@[0]); }
    assert("w"@ != "map"@) by { assert("w"@.len() != "map"@.len()); }
    assert("w"@ != "m"@) by { assert("w"@[0] != "m"@[0]); }
    assert("w"@ != "help"@) by { assert("w"@.len() != "help"@.len()); }
    assert("w"@ != "h"@) by { assert("w"@[0] != "h"@[0]); }
    assert("w"@ != "?"@) by { assert("w"@[0] != "?"@[0]); }
    assert("w"@ != "quit"@) by { assert("w"@.len() != "quit"@.len()); }
    assert("w"@ != "q"@) by { assert("w"@[0] != "q"@[0]); }
    assert("w"@ != "exit"@) by { assert("w"@.len() != "exit"@.len()); }
    assert("status"@ != "s"@) by { assert("status"@.len() != "s"@.len()); }
    assert("status"@ != "look"@) by { assert("status"@.len() != "look"@.len()); }
    assert("status"@ != "l"@) by { assert("status"@.len() != "l"@.len()); }
    assert("status"@ != "map"@) by { assert("status"@.len() != "map"@.len()); }
    assert("status"@ != "m"@) by { assert("status"@.len() != "m"@.len()); }
    assert("status"@ != "help"@) by { assert("status"@.len() != "help"@.len()); }
    assert("status"@ != "h"@) by { assert("status"@.len() != "h"@.len()); }
    assert("status"@ != "?"@) by { assert("status"@.len() != "?"@.len()); }
    assert("status"@ != "quit"@) by { assert("status"@.len() != "quit"@.len()); }
    assert("status"@ != "q"@) by { assert("status"@.len() != "q"@.len()); }
    assert("status"@ != "exit"@) by { assert("status"@.len() != "exit"@.len()); }
    assert("s"@ != "look"@) by { assert("s"@.len() != "look"@.len()); }
    assert("s"@ != "l"@) by { assert("s"@[0] != "l"@[0]); }
    assert("s"@ != "map"@) by { assert("s"@.len() != "map"@.len()); }
    assert("s"@ != "m"@) by { assert("s"@[0] != "m"@[0]); }
    assert("s"@ != "help"@) by { assert("s"@.len() != "help"@.len()); }
    assert("s"@ != "h"@) by { assert("s"@[0] != "h"@[0]); }
    assert("s"@ != "?"@) by { assert("s"@[0] != "?"@[0]); }
    assert("s"@ != "quit"@) by { assert("s"@.len() != "quit"@.len()); }
    assert("s"@ != "q"@) by { assert("s"@[0] != "q"@[0]); }
    assert("s"@ != "exit"@) by { assert("s"@.len() != "exit"@.len()); }
    assert("look"@ != "l"@) by { assert("look"@.len() != "l"@.len()); }
    assert("look"@ != "map"@) by { assert("look"@.len() != "map"@.len()); }
    assert("look"@ != "m"@) by { assert("look"@.len() != "m"@.len()); }
    assert("look"@ != "help"@) by { assert("look"@[0] != "help"@[0]); }
    assert("look"@ != "h"@) by { assert("look"@.len() != "h"@.len()); }
    assert("look"@ != "?"@) by { assert("look"@.len() != "?"@.len()); }
    assert("look"@ != "quit"@) by { assert("look"@[0] != "quit"@[0]); }
    assert("look"@ != "q"@) by { assert("look"@.len() != "q"@.len()); }
    assert("look"@ != "exit"@) by { assert("look"@[0] != "exit"@[0]); }
    assert("l"@ != "map"@) by { assert("l"@.len() != "map"@.len()); }
    assert("l"@ != "m"@) by { assert("l"@[0] != "m"@[0]); }
    assert("l"@ != "help"@) by { assert("l"@.len() != "help"@.len()); }
    assert("l"@ != "h"@) by { assert("l"@[0] != "h"@[0]); }
    assert("l"@ != "?"@) by { assert("l"@[0] != "?"@[0]); }
    assert("l"@ != "quit"@) by { assert("l"@.len() != "quit"@.len()); }
    assert("l"@ != "q"@) by { assert("l"@[0] != "q"@[0]); }
    assert("l"@ != "exit"@) by { assert("l"@.len() != "exit"@.len()); }
    assert("map"@ != "m"@) by { assert("map"@.len() != "m"@.len()); }
    assert("map"@ != "help"@) by { assert("map"@.len() != "help"@.len()); }
    assert("map"@ != "h"@) by { assert("map"@.len() != "h"@.len()); }
    assert("map"@ != "?"@) by { assert("map"@.len() != "?"@.len()); }
    assert("map"@ != "quit"@) by { assert("map"@.len() != "quit"@.len()); }
    assert("map"@ != "q"@) by { assert("map"@.len() != "q"@.len()); }
    assert("map"@ != "exit"@) by { assert("map"@.len() != "exit"@.len()); }
    assert("m"@ != "help"@) by { assert("m"@.len() != "help"@.len()); }
    assert("m"@ != "h"@) by { assert("m"@[0] != "h"@[0]); }
    assert("m"@ != "?"@) by { assert("m"@[0] != "?"@[0]); }
    assert("m"@ != "quit"@) by { assert("m"@.len() != "quit"@.len()); }
    assert("m"@ != "q"@) by { assert("m"@[0] != "q"@[0]); }
    assert("m"@ != "exit"@) by { assert("m"@.len() != "exit"@.len()); }
    assert("help"@ != "h"@) by { assert("help"@.len() != "h"@.len()); }
    assert("help"@ != "?"@) by { assert("help"@.len() != "?"@.len()); }
    assert("help"@ != "quit"@) by { assert("help"@[0] != "quit"@[0]); }
    assert("help"@ != "q"@) by { assert("help"@.len() != "q"@.len()); }
    assert("help"@ != "exit"@) by { assert("help"@[0] != "exit"@[0]); }
    assert("h"@ != "?"@) by { assert("h"@[0] != "?"@[0]); }
    assert("h"@ != "quit"@) by { assert("h"@.len() != "quit"@.len()); }
    assert("h"@ != "q"@) by { assert("h"@[0] != "q"@[0]); }
    assert("h"@ != "exit"@) by { assert("h"@.len() != "exit"@.len()); }
    assert("?"@ != "quit"@) by { assert("?"@.len() != "quit"@.len()); }
    assert("?"@ != "q"@) by { assert("?"@[0] != "q"@[0]); }
    assert("?"@ != "exit"@) by { assert("?"@.len() != "exit"@.len()); }
    assert("quit"@ != "q"@) by { assert("quit"@.len() != "q"@.len()); }
    assert("quit"@ != "exit"@) by { assert("quit"@[0] != "exit"@[0]); }
    assert("q"@ != "exit"@) by { assert("q"@.len() != "exit"@.len()); }

}

} // verus!

verus! {

/// Taking one entry out of an entry sequence takes its mass out of the total.
proof fn lemma_entries_mass_remove<F>(reg: Registry<F>, s: Seq<(CommodityId, Quantity)>, p: int)
    requires
        0 <= p < s.len(),
    ensures
        entries_mass(reg, s) == entries_mass(reg, s.remove(p)) + s[p].1 * reg.commodity_defs()[s[p].0.0 as int].unit_mass,
    decreases s.len(),
{
    if p == s.len() - 1 {
        assert(s.remove(p) =~= s.drop_last());
    } else {
        lemma_entries_mass_remove(reg, s.drop_last(), p);
        assert(s.remove(p).drop_last() =~= s.drop_last().remove(p));
        assert(s.remove(p).last() == s.last());
        assert(s.drop_last()[p] == s[p]);
    }
}

/// Removing the entry of key `s[p].0` from a sorted sequence removes that key
/// from the map it denotes.
proof fn lemma_remove_entry_map<V>(s: Seq<(CommodityId, V)>, p: int)
    requires
        sorted_keys(s),
        0 <= p < s.len(),
    ensures
        sorted_keys(s.remove(p)),
        seq_to_map(s.remove(p)) == seq_to_map(s).remove(s[p].0),
{
    let d = s.remove(p);
    let k = s[p].0;
    assert forall|a: int, b: int| 0 <= a < b < d.len() implies (#[trigger] d[a]).0.0 < (#[trigger] d[b]).0.0 by {
        let sa = if a < p { a } else { a + 1 };
        let sb = if b < p { b } else { b + 1 };
        assert(d[a] == s[sa] && d[b] == s[sb]);
    }
    assert forall|key: CommodityId| seq_has_key(d, key) == (seq_has_key(s, key) && key != k) by {
        if seq_has_key(d, key) {
            let j = choose|j: int| 0 <= j < d.len() && (#[trigger] d[j]).0 == key;
            let sj = if j < p { j } else { j + 1 };
            assert(d[j] == s[sj]);
            if sj < p {
                assert(s[sj].0.0 < s[p].0.0);
            } else {
                assert(s[p].0.0 < s[sj].0.0);
            }
        }
        if seq_has_key(s, key) && key != k {
            let j = choose|j: int| 0 <= j < s.len() && (#[trigger] s[j]).0 == key;
            assert(j != p);
            let dj = if j < p { j } else { j - 1 };
            assert(d[dj] == s[j]);
        }
    }
    assert forall|key: CommodityId| seq_has_key(d, key) implies #[trigger] seq_to_map(d)[key] == seq_to_map(s)[key] by {
        let j = choose|j: int| 0 <= j < d.len() && (#[trigger] d[j]).0 == key;
        lemma_key_pos(d, j);
        let sj = if j < p { j } else { j + 1 };
        assert(d[j] == s[sj]);
        lemma_key_pos(s, sj);
    }
    assert(seq_to_map(d) =~= seq_to_map(s).remove(k));
}

/// A sorted sequence denoting `m` is `m`'s sorted entry sequence.
proof fn lemma_is_sorted_entries<V>(s: Seq<(CommodityId, V)>, m: Map<CommodityId, V>)
    requires
        sorted_keys(s),
        seq_to_map(s) == m,
    ensures
        sorted_entries(m) == s,
{
    let t = sorted_entries(m);
    assert(sorted_keys(t) && seq_to_map(t) == m);
    lemma_sorted_unique(t, s);
}

/// The mass a hold uses is the sum over its goods of units times unit mass:
/// an empty hold weighs nothing, and each good weighs its units times its
/// commodity's unit mass on top of the rest of the hold.
pub proof fn a_hold_weighs_each_good_by_its_unit_mass<F>(reg: Registry<F>, hold: CommodityMap<Quantity>, c: CommodityId)
    requires
        hold.keys_sorted(),
        hold@.contains_key(c),
    ensures
        hold_used(reg, Map::<CommodityId, Quantity>::empty()) == 0,
        hold_used(reg, hold@) == hold@[c] * reg.commodity_defs()[c.0 as int].unit_mass + hold_used(reg, hold@.remove(c)),
{
    assert(seq_to_map(Seq::<(CommodityId, Quantity)>::empty()) =~= Map::<CommodityId, Quantity>::empty());
    lemma_is_sorted_entries(Seq::<(CommodityId, Quantity)>::empty(), Map::<CommodityId, Quantity>::empty());
    hold.lemma_sorted_entries();
    hold.lemma_entries();
    let s = hold.spec_entries();
    let p = key_pos(s, c);
    assert(s[p].0 == c);
    lemma_key_pos(s, p);
    lemma_remove_entry_map(s, p);
    lemma_is_sorted_entries(s.remove(p), hold@.remove(c));
    lemma_entries_mass_remove(reg, s, p);
}

} // verus!

verus! {

/// `m` is denoted by some sorted entry sequence (every hold is).
pub open spec fn has_entries<V>(m: Map<CommodityId, V>) -> bool {
    exists|s: Seq<(CommodityId, V)>| sorted_keys(s) && seq_to_map(s) == m
}

/// Appending an entry with a key above all others adds it to the map.
proof fn lemma_push_entry_map<V>(s: Seq<(CommodityId, V)>, e: (CommodityId, V))
    requires
        sorted_keys(s),
        forall|i: int| 0 <= i < s.len() ==> (#[trigger] s[i]).0.0 < e.0.0,
    ensures
        sorted_keys(s.push(e)),
        seq_to_map(s.push(e)) == seq_to_map(s).insert(e.0, e.1),
{
    let t = s.push(e);
    assert forall|a: int, b: int| 0 <= a < b < t.len() implies (#[trigger] t[a]).0.0 < (#[trigger] t[b]).0.0 by {
        assert(t[a] == s[a]);
        if b < s.len() {
            assert(t[b] == s[b]);
        }
    }
    lemma_drop_last_map(t);
    assert(t.drop_last() =~= s);
    lemma_key_pos(t, t.len() - 1);
    assert forall|key: CommodityId| #[trigger] seq_to_map(t).contains_key(key) == seq_to_map(s).insert(e.0, e.1).contains_key(key) by {
        if key != e.0 {
            assert(seq_to_map(t).remove(e.0).contains_key(key) == seq_to_map(t).contains_key(key));
        }
    }
    assert forall|key: CommodityId| seq_to_map(t).contains_key(key) implies #[trigger] seq_to_map(t)[key] == seq_to_map(s).insert(e.0, e.1)[key] by {
        if key != e.0 {
            assert(seq_to_map(t).remove(e.0)[key] == seq_to_map(t)[key]);
        }
    }
    assert(seq_to_map(t) =~= seq_to_map(s).insert(e.0, e.1));
}

/// Inserting into a map with sorted entries gives a map with sorted entries,
/// whose keys are those of the sequence and the new key.
proof fn lemma_insert_entries<V>(s: Seq<(CommodityId, V)>, k: CommodityId, v: V) -> (t: Seq<(CommodityId, V)>)
    requires
        sorted_keys(s),
    ensures
        sorted_keys(t),
        seq_to_map(t) == seq_to_map(s).insert(k, v),
        forall|i: int| 0 <= i < t.len() ==> (#[trigger] t[i]).0 == k || exists|j: int| 0 <= j < s.len() && s[j].0 == t[i].0,
    decreases s.len(),
{
    if s.len() == 0 {
        lemma_push_entry_map(s, (k, v));
        s.push((k, v))
    } else {
        let l = s.last();
        let d = s.drop_last();
        lemma_drop_last_map(s);
        if l.0.0 < k.0 {
            assert forall|i: int| 0 <= i < s.len() implies (#[trigger] s[i]).0.0 < k.0 by {
                if i < s.len() - 1 {
                    assert(s[i].0.0 < s[s.len() - 1].0.0);
                }
            }
            lemma_push_entry_map(s, (k, v));
            let t = s.push((k, v));
            assert forall|i: int| 0 <= i < t.len() implies (#[trigger] t[i]).0 == k || exists|j: int| 0 <= j < s.len() && s[j].0 == t[i].0 by {
                if i < s.len() {
                    assert(s[i].0 == t[i].0);
                }
            }
            t
        } else {
            let t1 = lemma_insert_entries(d, k, v);
            assert forall|i: int| 0 <= i < t1.len() implies (#[trigger] t1[i]).0.0 < l.0.0 || t1[i].0 == l.0 by {
                if t1[i].0 != k {
                    let j = choose|j: int| 0 <= j < d.len() && d[j].0 == t1[i].0;
                    assert(s[j] == d[j]);
                    assert(s[j].0.0 < s[s.len() - 1].0.0);
                }
            }
            if l.0 == k {
                // The key replaces the last entry.
                assert(seq_to_map(d).insert(k, v) =~= seq_to_map(s).insert(k, v)) by {
                    lemma_key_pos(s, s.len() - 1);
                }
                assert forall|i: int| 0 <= i < t1.len() implies (#[trigger] t1[i]).0 == k || exists|j: int| 0 <= j < s.len() && s[j].0 == t1[i].0 by {
                    if t1[i].0 != k {
                        let j = choose|j: int| 0 <= j < d.len() && d[j].0 == t1[i].0;
                        assert(s[j] == d[j]);
                    }
                }
                t1
            } else {
                assert(k.0 < l.0.0);
                assert forall|i: int| 0 <= i < t1.len() implies (#[trigger] t1[i]).0.0 < l.0.0 by {
                    if t1[i].0 != k {
                        let j = choose|j: int| 0 <= j < d.len() && d[j].0 == t1[i].0;
                        assert(s[j] == d[j]);
                        assert(s[j].0.0 < s[s.len() - 1].0.0);
                    }
                }
                lemma_push_entry_map(t1, l);
                let t = t1.push(l);
                lemma_key_pos(s, s.len() - 1);
                assert(seq_to_map(d).insert(k, v).insert(l.0, l.1) =~= seq_to_map(s).insert(k, v));
                assert forall|i: int| 0 <= i < t.len() implies (#[trigger] t[i]).0 == k || exists|j: int| 0 <= j < s.len() && s[j].0 == t[i].0 by {
                    if i < t1.len() {
                        assert(t[i] == t1[i]);
                        if t1[i].0 != k {
                            let j = choose|j: int| 0 <= j < d.len() && d[j].0 == t1[i].0;
                            assert(s[j] == d[j]);
                        }
                    } else {
                        assert(s[s.len() - 1].0 == t[i].0);
                    }
                }
                t
            }
        }
    }
}

/// The mass of a map with sorted entries, good by good.
proof fn lemma_hold_used_split<F>(reg: Registry<F>, m: Map<CommodityId, Quantity>, c: CommodityId)
    requires
        has_entries(m),
        m.contains_key(c),
    ensures
        hold_used(reg, m) == m[c] * reg.commodity_defs()[c.0 as int].unit_mass + hold_used(reg, m.remove(c)),
{
    let s = choose|s: Seq<(CommodityId, Quantity)>| sorted_keys(s) && seq_to_map(s) == m;
    lemma_is_sorted_entries(s, m);
    let p = key_pos(s, c);
    assert(seq_has_key(s, c));
    assert(0 <= p < s.len() && s[p].0 == c);
    lemma_key_pos(s, p);
    lemma_remove_entry_map(s, p);
    lemma_is_sorted_entries(s.remove(p), m.remove(c));
    lemma_entries_mass_remove(reg, s, p);
}

/// An accepted purchase adds exactly its units times the good's unit mass to
/// the buyer's hold, and never fills the hold past its ship's capacity.
pub proof fn an_accepted_buy_never_overfills_the_hold<F>(
    reg: Registry<F>,
    tt: Seq<Seq<Seq<u64>>>,
    s: WorldState,
    player: PlayerId,
    trader: TraderId,
    commodity: CommodityId,
    qty: Quantity,
)
    requires
        command_fits(reg, tt, s, Command::Buy { player, trader, commodity, qty }),
        command_step(reg, tt, s, Command::Buy { player, trader, commodity, qty }) is Ok,
        has_entries(s.traders[owned_index(s.traders, trader, player)->Ok_0].cargo),
    ensures
        ({
            let i = owned_index(s.traders, trader, player)->Ok_0;
            let s2 = command_step(reg, tt, s, Command::Buy { player, trader, commodity, qty })->Ok_0;
            let m = reg.commodity_defs()[commodity.0 as int].unit_mass;
            &&& hold_used(reg, s2.traders[i].cargo) == hold_used(reg, s.traders[i].cargo) + qty * m
            &&& hold_used(reg, s2.traders[i].cargo) <= reg.ship_defs()[s.traders[i].ship.0 as int].cargo_capacity
        }),
{
    let i = owned_index(s.traders, trader, player)->Ok_0;
    let s2 = command_step(reg, tt, s, Command::Buy { player, trader, commodity, qty })->Ok_0;
    let c = commodity;
    let m = reg.commodity_defs()[c.0 as int].unit_mass;
    let old = s.traders[i].cargo;
    let new = s2.traders[i].cargo;
    let h = held(old, c);
    assert(h + qty <= u32::MAX);
    assert(new == old.insert(c, (h + qty) as u32));
    let w = choose|w: Seq<(CommodityId, Quantity)>| sorted_keys(w) && seq_to_map(w) == old;
    let t = lemma_insert_entries(w, c, (h + qty) as u32);
    assert(has_entries(new));
    lemma_hold_used_split(reg, new, c);
    assert(new.remove(c) =~= old.remove(c));
    if old.contains_key(c) {
        lemma_hold_used_split(reg, old, c);
    } else {
        assert(old.remove(c) =~= old);
    }
    assert((h + qty) * m == h * m + qty * m) by (nonlinear_arith);
}

} // verus!
