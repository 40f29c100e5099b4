//! Per-system market: stock, equilibrium anchor, and current price per good.
//!
//! A market only trades the commodities listed in its system's `initial_stock`.
//! Each such good carries its equilibrium anchor (the authored "normal" level)
//! against which pricing judges surplus or shortage.

use vstd::prelude::*;

use crate::idmap::CommodityMap;
use crate::ids::{CommodityId, SystemId};
use crate::idmap::seq_has_key;
use crate::pricing::{smoothed, spec_smoothed, PricingStrategy};
use crate::{Money, Quantity};

verus! {

/// One tradeable good in a market.
#[derive(Debug, Clone, Copy, PartialEq, Eq, Structural)]
pub struct MarketGood {
    /// Current inventory.
    pub stock: Quantity,
    /// Equilibrium anchor (authored baseline) used by pricing.
    pub equilibrium: Quantity,
    /// Current unit price, recomputed each tick.
    pub price: Money,
}

/// `a + b`, capped at `u32::MAX`.
pub open spec fn sat_add(a: u32, b: u32) -> u32 {
    if a + b > u32::MAX {
        u32::MAX
    } else {
        (a + b) as u32
    }
}

/// Goods after one sticky price update toward `targets` (one target per entry,
/// in entry order): only prices change.
pub open spec fn repriced(s: Seq<(CommodityId, MarketGood)>, targets: Seq<Money>) -> Seq<(CommodityId, MarketGood)> {
    Seq::new(
        s.len(),
        |k: int| (s[k].0, MarketGood { price: spec_smoothed(s[k].1.price as int, targets[k] as int) as i64, ..s[k].1 }),
    )
}

/// A system's marketplace. `goods` is ordered by commodity id so iteration
/// order is deterministic (important for reproducible trader scans).
#[derive(Debug)]
pub struct Market {
    pub system: SystemId,
    pub pricing: PricingStrategy,
    pub goods: CommodityMap<MarketGood>,
}

impl Market {
    /// Current stock of `c` (0 if this market does not trade it).
    pub open spec fn spec_stock(&self, c: CommodityId) -> Quantity {
        if self.goods@.contains_key(c) {
            self.goods@[c].stock
        } else {
            0
        }
    }

    /// Whether this market trades `c`.
    pub fn has(&self, c: CommodityId) -> (r: bool)
        ensures
            r == self.goods@.contains_key(c),
    {
        self.goods.contains_key(c)
    }

    /// Current stock, or 0 if this market does not trade the commodity.
    pub fn stock(&self, c: CommodityId) -> (r: Quantity)
        ensures
            r == self.spec_stock(c),
    {
        match self.goods.get(c) {
            Some(g) => g.stock,
            None => 0,
        }
    }

    /// Current price, or `None` if this market does not trade the commodity.
    pub fn price(&self, c: CommodityId) -> (r: Option<Money>)
        ensures
            r is None <==> !self.goods@.contains_key(c),
            r matches Some(p) ==> p == self.goods@[c].price,
    {
        match self.goods.get(c) {
            Some(g) => Some(g.price),
            None => None,
        }
    }

    /// Add `qty` to an existing good's stock (saturating at `u32::MAX`). No-op
    /// if the good is not traded here (callers only add goods the market
    /// already holds).
    pub fn add(&mut self, c: CommodityId, qty: Quantity)
        ensures
            final(self).system == old(self).system,
            final(self).pricing == old(self).pricing,
            old(self).goods@.contains_key(c) ==> final(self).goods@ == old(self).goods@.insert(
                c,
                MarketGood { stock: sat_add(old(self).goods@[c].stock, qty), ..old(self).goods@[c] },
            ),
            !old(self).goods@.contains_key(c) ==> final(self).goods@ == old(self).goods@,
    {
        let found = match self.goods.get(c) {
            Some(g) => Some(*g),
            None => None,
        };
        if let Some(g) = found {
            let stock = g.stock.saturating_add(qty);
            self.goods.insert(c, MarketGood { stock, ..g });
        }
    }

    /// Ease every good's price toward its target: `targets[k]` is the target of
    /// the `k`-th good in ascending commodity order. Stocks are untouched.
    pub fn reprice(&mut self, targets: &Vec<Money>)
        requires
            targets@.len() == old(self).goods.spec_entries().len(),
            forall|k: int|
                0 <= k < targets@.len() ==> i64::MIN <= (#[trigger] targets@[k]) - old(self).goods.spec_entries()[k].1.price
                    <= i64::MAX,
        ensures
            final(self).system == old(self).system,
            final(self).pricing == old(self).pricing,
            final(self).goods.spec_entries() == repriced(old(self).goods.spec_entries(), targets@),
            forall|c: CommodityId| #[trigger] final(self).goods@.contains_key(c) == old(self).goods@.contains_key(c),
            forall|c: CommodityId|
                #[trigger] final(self).goods@.contains_key(c) ==> final(self).goods@[c].price >= 1
                    && final(self).goods@[c].stock == old(self).goods@[c].stock
                    && final(self).goods@[c].equilibrium == old(self).goods@[c].equilibrium,
    {
        proof {
            use_type_invariant(&self.goods);
            self.goods.lemma_entries();
        }
        let ghost old_s = self.goods.spec_entries();
        let ghost target = repriced(old_s, targets@);
        let n = self.goods.len();
        let mut k: usize = 0;
        while k < n
            invariant
                n == old_s.len(),
                targets@.len() == n,
                target == repriced(old_s, targets@),
                forall|j: int|
                    0 <= j < n ==> i64::MIN <= (#[trigger] targets@[j]) - old_s[j].1.price <= i64::MAX,
                self.goods.spec_entries().len() == n,
                k <= n,
                forall|j: int| 0 <= j < k ==> (#[trigger] self.goods.spec_entries()[j]) == target[j],
                forall|j: int| k <= j < n ==> (#[trigger] self.goods.spec_entries()[j]) == old_s[j],
                self.system == old(self).system,
                self.pricing == old(self).pricing,
            decreases n - k,
        {
            let g = *self.goods.value_at(k);
            let p = smoothed(g.price, targets[k]);
            self.goods.set_value_at(k, MarketGood { price: p, ..g });
            k = k + 1;
        }
        proof {
            assert(self.goods.spec_entries() =~= target);
            use_type_invariant(&self.goods);
            self.goods.lemma_entries();
            let fs = self.goods.spec_entries();
            assert forall|c: CommodityId| #[trigger] self.goods@.contains_key(c) == old(self).goods@.contains_key(c) by {
                if seq_has_key(fs, c) {
                    let j = choose|j: int| 0 <= j < fs.len() && (#[trigger] fs[j]).0 == c;
                    assert(old_s[j].0 == c);
                }
                if seq_has_key(old_s, c) {
                    let j = choose|j: int| 0 <= j < old_s.len() && (#[trigger] old_s[j]).0 == c;
                    assert(fs[j].0 == c);
                }
            }
            assert forall|c: CommodityId| #[trigger] self.goods@.contains_key(c) implies self.goods@[c].price >= 1
                && self.goods@[c].stock == old(self).goods@[c].stock
                && self.goods@[c].equilibrium == old(self).goods@[c].equilibrium by {
                let j = choose|j: int| 0 <= j < fs.len() && (#[trigger] fs[j]).0 == c;
                assert(fs[j] == self.goods.spec_entries()[j]);
                assert(old_s[j].0 == c);
                assert(old_s[j] == old(self).goods.spec_entries()[j]);
            }
        }
    }

    /// Remove `qty` if at least that much is in stock. Returns whether it
    /// succeeded (all-or-nothing).
    pub fn try_remove(&mut self, c: CommodityId, qty: Quantity) -> (r: bool)
        ensures
            final(self).system == old(self).system,
            final(self).pricing == old(self).pricing,
            r == (old(self).goods@.contains_key(c) && old(self).goods@[c].stock >= qty),
            r ==> final(self).goods@ == old(self).goods@.insert(
                c,
                MarketGood { stock: (old(self).goods@[c].stock - qty) as u32, ..old(self).goods@[c] },
            ),
            !r ==> final(self).goods@ == old(self).goods@,
    {
        let found = match self.goods.get(c) {
            Some(g) => Some(*g),
            None => None,
        };
        if let Some(g) = found {
            if g.stock >= qty {
                self.goods.insert(c, MarketGood { stock: g.stock - qty, ..g });
                return true;
            }
        }
        false
    }
}

} // verus!
