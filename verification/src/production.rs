//! Production phase: systems run their industries, transforming stock.
//!
//! A recipe applies some number of times per tick, each application gated on all
//! inputs being in stock. Recipes with no inputs are raw producers; recipes with
//! no outputs are consumers (population demand), which create the shortages that
//! pull trade. Producing/consuming a commodity requires the system's market to
//! already trade it.

use vstd::prelude::*;

use crate::ids::{CommodityId, RecipeId};
use crate::market::{sat_add, Market, MarketGood};
use crate::Quantity;

verus! {

/// A recipe with all commodity references resolved to handles. `F` is the
/// scalar type the host uses for authored real-valued quantities (here the
/// price elasticity of throughput), which this library only carries.
#[derive(Debug, Clone)]
pub struct ResolvedRecipe<F> {
    pub id: RecipeId,
    pub inputs: Vec<(CommodityId, Quantity)>,
    pub outputs: Vec<(CommodityId, Quantity)>,
    pub rate: u32,
    pub elasticity: F,
}

/// Stock of `c` in a goods map (0 when not traded).
pub open spec fn map_stock(m: Map<CommodityId, MarketGood>, c: CommodityId) -> int {
    if m.contains_key(c) {
        m[c].stock as int
    } else {
        0
    }
}

/// Every input line is individually covered by current stock.
pub open spec fn inputs_available(m: Map<CommodityId, MarketGood>, ins: Seq<(CommodityId, Quantity)>) -> bool {
    forall|i: int| 0 <= i < ins.len() ==> map_stock(m, (#[trigger] ins[i]).0) >= ins[i].1
}

/// The goods after taking each input line in order, where a line is taken only
/// if that much is in stock (all-or-nothing per line).
pub open spec fn remove_inputs(m: Map<CommodityId, MarketGood>, ins: Seq<(CommodityId, Quantity)>) -> Map<CommodityId, MarketGood>
    decreases ins.len(),
{
    if ins.len() == 0 {
        m
    } else {
        let m1 = remove_inputs(m, ins.drop_last());
        let (c, q) = ins.last();
        if m1.contains_key(c) && m1[c].stock >= q {
            m1.insert(c, MarketGood { stock: (m1[c].stock - q) as u32, ..m1[c] })
        } else {
            m1
        }
    }
}

/// The goods after adding each output line in order (saturating; goods the
/// market does not trade are dropped).
pub open spec fn add_outputs(m: Map<CommodityId, MarketGood>, outs: Seq<(CommodityId, Quantity)>) -> Map<CommodityId, MarketGood>
    decreases outs.len(),
{
    if outs.len() == 0 {
        m
    } else {
        let m1 = add_outputs(m, outs.drop_last());
        let (c, q) = outs.last();
        if m1.contains_key(c) {
            m1.insert(c, MarketGood { stock: sat_add(m1[c].stock, q), ..m1[c] })
        } else {
            m1
        }
    }
}

/// One application of a recipe.
pub open spec fn apply_once(
    m: Map<CommodityId, MarketGood>,
    ins: Seq<(CommodityId, Quantity)>,
    outs: Seq<(CommodityId, Quantity)>,
) -> Map<CommodityId, MarketGood> {
    add_outputs(remove_inputs(m, ins), outs)
}

/// Apply a recipe up to `count` times, stopping at the first application whose
/// inputs are not all in stock: the final goods and the number of applications.
pub open spec fn apply_n(
    m: Map<CommodityId, MarketGood>,
    ins: Seq<(CommodityId, Quantity)>,
    outs: Seq<(CommodityId, Quantity)>,
    count: nat,
) -> (Map<CommodityId, MarketGood>, nat)
    decreases count,
{
    if count == 0 || !inputs_available(m, ins) {
        (m, 0)
    } else {
        let r = apply_n(apply_once(m, ins, outs), ins, outs, (count - 1) as nat);
        (r.0, r.1 + 1)
    }
}

/// Check that every input line is covered by stock.
fn check_inputs(market: &Market, ins: &Vec<(CommodityId, Quantity)>) -> (r: bool)
    ensures
        r == inputs_available(market.goods@, ins@),
{
    let n = ins.len();
    let mut i: usize = 0;
    while i < n
        invariant
            n == ins@.len(),
            i <= n,
            forall|j: int| 0 <= j < i ==> map_stock(market.goods@, (#[trigger] ins@[j]).0) >= ins@[j].1,
        decreases n - i,
    {
        let (c, q) = ins[i];
        if market.stock(c) < q {
            assert(map_stock(market.goods@, ins@[i as int].0) < ins@[i as int].1);
            return false;
        }
        i = i + 1;
    }
    true
}

/// One application: take the inputs, then add the outputs.
fn apply_one(market: &mut Market, ins: &Vec<(CommodityId, Quantity)>, outs: &Vec<(CommodityId, Quantity)>)
    ensures
        final(market).goods@ == apply_once(old(market).goods@, ins@, outs@),
        final(market).system == old(market).system,
        final(market).pricing == old(market).pricing,
{
    let n = ins.len();
    let mut i: usize = 0;
    while i < n
        invariant
            n == ins@.len(),
            i <= n,
            market.goods@ == remove_inputs(old(market).goods@, ins@.take(i as int)),
            market.system == old(market).system,
            market.pricing == old(market).pricing,
        decreases n - i,
    {
        let (c, q) = ins[i];
        proof {
            assert(ins@.take(i + 1).drop_last() =~= ins@.take(i as int));
        }
        market.try_remove(c, q);
        i = i + 1;
    }
    assert(ins@.take(n as int) =~= ins@);
    let m = outs.len();
    let mut j: usize = 0;
    while j < m
        invariant
            m == outs@.len(),
            j <= m,
            market.goods@ == add_outputs(remove_inputs(old(market).goods@, ins@), outs@.take(j as int)),
            market.system == old(market).system,
            market.pricing == old(market).pricing,
        decreases m - j,
    {
        let (c, q) = outs[j];
        proof {
            assert(outs@.take(j + 1).drop_last() =~= outs@.take(j as int));
        }
        market.add(c, q);
        j = j + 1;
    }
    assert(outs@.take(m as int) =~= outs@);
}

/// Apply a recipe up to `count` times this tick, stopping early if inputs run
/// out. Returns the number of applications that actually ran.
pub fn apply_recipe<F>(market: &mut Market, recipe: &ResolvedRecipe<F>, count: u32) -> (applied: u32)
    ensures
        (final(market).goods@, applied as nat) == apply_n(old(market).goods@, recipe.inputs@, recipe.outputs@, count as nat),
        final(market).system == old(market).system,
        final(market).pricing == old(market).pricing,
{
    let ghost ins = recipe.inputs@;
    let ghost outs = recipe.outputs@;
    let ghost target = apply_n(old(market).goods@, ins, outs, count as nat);
    let mut applied: u32 = 0;
    while applied < count
        invariant
            applied <= count,
            market.system == old(market).system,
            market.pricing == old(market).pricing,
            target.0 == apply_n(market.goods@, ins, outs, (count - applied) as nat).0,
            target.1 == applied + apply_n(market.goods@, ins, outs, (count - applied) as nat).1,
            ins == recipe.inputs@,
            outs == recipe.outputs@,
        ensures
            target.0 == market.goods@,
            target.1 == applied,
            market.system == old(market).system,
            market.pricing == old(market).pricing,
        decreases count - applied,
    {
        if !check_inputs(market, &recipe.inputs) {
            // no partial applications; stop once starved
            break;
        }
        apply_one(market, &recipe.inputs, &recipe.outputs);
        applied = applied + 1;
    }
    applied
}

/// Inelastic single-tick application at nominal `rate` (used where elasticity is
/// not modelled).
pub fn run_recipe<F>(market: &mut Market, recipe: &ResolvedRecipe<F>)
    ensures
        final(market).goods@ == apply_n(old(market).goods@, recipe.inputs@, recipe.outputs@, recipe.rate as nat).0,
        final(market).system == old(market).system,
        final(market).pricing == old(market).pricing,
{
    apply_recipe(market, recipe, recipe.rate);
}

/// Which commodity's price drives a recipe's elastic response, and whether the
/// response is supply-side (`true`: produce more when dear) or demand-side
/// (`false`: consume less when dear).
///
/// A recipe with any input responds to its first input, demand-side; only a
/// pure producer (no inputs) falls back to a supply-side response on its first
/// output. A recipe with neither has no signal.
pub fn response_signal<F>(recipe: &ResolvedRecipe<F>) -> (r: Option<(CommodityId, bool)>)
    ensures
        recipe.inputs@.len() > 0 ==> r == Some((recipe.inputs@[0].0, false)),
        recipe.inputs@.len() == 0 && recipe.outputs@.len() > 0 ==> r == Some((recipe.outputs@[0].0, true)),
        recipe.inputs@.len() == 0 && recipe.outputs@.len() == 0 ==> r is None,
{
    if recipe.inputs.len() > 0 {
        Some((recipe.inputs[0].0, false))
    } else if recipe.outputs.len() > 0 {
        Some((recipe.outputs[0].0, true))
    } else {
        None
    }
}

} // verus!

verus! {

/// `m2` trades the same goods as `m`, at the same prices and equilibria.
pub open spec fn same_goods_and_prices(m: Map<CommodityId, MarketGood>, m2: Map<CommodityId, MarketGood>) -> bool {
    &&& forall|c: CommodityId| #[trigger] m2.contains_key(c) == m.contains_key(c)
    &&& forall|c: CommodityId|
        #[trigger] m2.contains_key(c) ==> m2[c].price == m[c].price && m2[c].equilibrium == m[c].equilibrium
}

/// Taking inputs changes only stocks.
pub proof fn lemma_remove_inputs_keeps(m: Map<CommodityId, MarketGood>, ins: Seq<(CommodityId, Quantity)>)
    ensures
        same_goods_and_prices(m, remove_inputs(m, ins)),
    decreases ins.len(),
{
    if ins.len() > 0 {
        lemma_remove_inputs_keeps(m, ins.drop_last());
    }
}

/// Adding outputs changes only stocks.
pub proof fn lemma_add_outputs_keeps(m: Map<CommodityId, MarketGood>, outs: Seq<(CommodityId, Quantity)>)
    ensures
        same_goods_and_prices(m, add_outputs(m, outs)),
    decreases outs.len(),
{
    if outs.len() > 0 {
        lemma_add_outputs_keeps(m, outs.drop_last());
    }
}

/// Running a recipe changes only stocks: the market trades the same goods at
/// the same prices.
pub proof fn lemma_apply_n_keeps(
    m: Map<CommodityId, MarketGood>,
    ins: Seq<(CommodityId, Quantity)>,
    outs: Seq<(CommodityId, Quantity)>,
    count: nat,
)
    ensures
        same_goods_and_prices(m, apply_n(m, ins, outs, count).0),
        apply_n(m, ins, outs, count).1 <= count,
    decreases count,
{
    if count > 0 && inputs_available(m, ins) {
        let m1 = apply_once(m, ins, outs);
        lemma_remove_inputs_keeps(m, ins);
        lemma_add_outputs_keeps(remove_inputs(m, ins), outs);
        lemma_apply_n_keeps(m1, ins, outs, (count - 1) as nat);
    }
}

} // verus!
