//! Pricing strategies: the first behaviour routed through the plugin seam.
//!
//! Content names a strategy per system (`pricing: "supply_demand_v1"`). Here the
//! built-in strategies are registered in a [`NamedRegistry`], and the sticky
//! price update that eases a market's price toward its target is defined.

use vstd::prelude::*;

use crate::hook::NamedRegistry;
use crate::Money;

verus! {

/// A resolved pricing strategy. Currently one built-in; the enum exists so the
/// seam has a concrete handler type to store per market.
#[derive(Debug, Clone, Copy, PartialEq, Eq, Structural)]
pub enum PricingStrategy {
    SupplyDemandV1,
}

/// The price a market moves to in one tick: a fifth of the gap between the
/// current price and the target is closed, rounded to the nearest credit, and
/// the result is floored at 1.
pub open spec fn spec_smoothed(current: int, target: int) -> int {
    let next = current + (target - current + 2) / 5;
    if next < 1 {
        1
    } else {
        next
    }
}

/// Move `current` a fifth of the way toward `target` (the sticky-price
/// smoothing), rounded to the nearest credit and floored at 1.
pub fn smoothed(current: Money, target: Money) -> (r: Money)
    requires
        i64::MIN <= target - current <= i64::MAX,
    ensures
        r == spec_smoothed(current as int, target as int),
{
    let d: i128 = target as i128 - current as i128 + 2;
    let q: i128 = if d >= 0 {
        d / 5
    } else {
        -((-d + 4) / 5)
    };
    assert(q == d / 5) by (nonlinear_arith)
        requires
            d >= 0 ==> q == d / 5,
            d < 0 ==> q == -((-d + 4) / 5),
    ;
    let next: i128 = current as i128 + q;
    if next < 1 {
        1
    } else {
        assert(next <= i64::MAX) by (nonlinear_arith)
            requires
                q == d / 5,
                d == target - current + 2,
                next == current + q,
                target <= i64::MAX,
                current <= i64::MAX,
        ;
        next as i64
    }
}

/// Build the registry of built-in pricing strategies. Hosts use it both to
/// resolve names when building the world and to hand the set of valid names to
/// the loader for content validation.
pub fn builtin_pricing() -> (r: NamedRegistry<PricingStrategy>)
    ensures
        r@ == Map::<Seq<char>, PricingStrategy>::empty().insert(
            "supply_demand_v1"@,
            PricingStrategy::SupplyDemandV1,
        ),
        r.spec_entries().len() == 1,
        r.spec_entries()[0].0@ == "supply_demand_v1"@,
{
    let mut reg = NamedRegistry::new();
    reg.register("supply_demand_v1", PricingStrategy::SupplyDemandV1);
    reg
}

} // verus!
