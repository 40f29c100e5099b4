//! Linking: string-id content -> handle-based, cross-checked runtime data.
//!
//! Every id is interned to a handle, then every reference (recipe ->
//! commodities, system -> recipes / systems / commodities, system -> pricing
//! strategy) is resolved. A reference that does not resolve aborts the whole
//! link: the resulting [`Registry`] is by construction fully connected, so the
//! simulation never has to handle a dangling id.

use vstd::prelude::*;

use crate::data::{CommodityAmount, CommodityDef, MergedContent, ProductionRecipe, ShipDef, SystemDef};
use crate::ids::{distinct, CommodityId, Interner, RecipeId, ShipId, SystemId};
use crate::production::ResolvedRecipe;
use crate::Quantity;

verus! {

/// A system with all references resolved to handles.
#[derive(Debug, Clone)]
pub struct ResolvedSystem<F> {
    pub id: SystemId,
    pub name: String,
    pub position: [F; 2],
    pub industries: Vec<RecipeId>,
    pub connections: Vec<SystemId>,
    pub initial_stock: Vec<(CommodityId, Quantity)>,
    /// Validated pricing strategy name.
    pub pricing: String,
    /// Route lawlessness; scales pirate ambush chance.
    pub danger: F,
}

/// Why linking failed.
#[derive(Debug, Clone, PartialEq, Eq)]
pub enum LoadError {
    /// A definition refers to an id that no definition has.
    DanglingRef { kind: &'static str, referrer: String, target_kind: &'static str, target: String },
    /// A system names a pricing strategy the engine does not provide.
    UnknownPricing { system: String, strategy: String },
}

/// The content of a [`LoadError`], as character sequences.
pub enum LoadErrorView {
    DanglingRef { kind: Seq<char>, referrer: Seq<char>, target_kind: Seq<char>, target: Seq<char> },
    UnknownPricing { system: Seq<char>, strategy: Seq<char> },
}

impl View for LoadError {
    type V = LoadErrorView;

    open spec fn view(&self) -> LoadErrorView {
        match self {
            LoadError::DanglingRef { kind, referrer, target_kind, target } => LoadErrorView::DanglingRef {
                kind: kind@,
                referrer: referrer@,
                target_kind: target_kind@,
                target: target@,
            },
            LoadError::UnknownPricing { system, strategy } => LoadErrorView::UnknownPricing {
                system: system@,
                strategy: strategy@,
            },
        }
    }
}

// ---------------------------------------------------------------------------
// What linking means
// ---------------------------------------------------------------------------

/// The ids of a list of commodity definitions.
pub open spec fn commodity_ids<F>(s: Seq<CommodityDef<F>>) -> Seq<Seq<char>> {
    s.map_values(|d: CommodityDef<F>| d.id@)
}

/// The ids of a list of recipes.
pub open spec fn recipe_ids<F>(s: Seq<ProductionRecipe<F>>) -> Seq<Seq<char>> {
    s.map_values(|d: ProductionRecipe<F>| d.id@)
}

/// The ids of a list of systems.
pub open spec fn system_ids<F>(s: Seq<SystemDef<F>>) -> Seq<Seq<char>> {
    s.map_values(|d: SystemDef<F>| d.id@)
}

/// The ids of a list of ships.
pub open spec fn ship_ids<F>(s: Seq<ShipDef<F>>) -> Seq<Seq<char>> {
    s.map_values(|d: ShipDef<F>| d.id@)
}

/// The commodity ids an amount list refers to.
pub open spec fn amount_names(a: Seq<CommodityAmount>) -> Seq<Seq<char>> {
    a.map_values(|x: CommodityAmount| x.commodity@)
}

/// The contents of a list of strings.
pub open spec fn string_views(s: Seq<String>) -> Seq<Seq<char>> {
    s.map_values(|x: String| x@)
}

/// The first name in `s` that `names` lacks, if any.
pub open spec fn first_unresolved(names: Seq<Seq<char>>, s: Seq<Seq<char>>) -> Option<Seq<char>>
    decreases s.len(),
{
    if s.len() == 0 {
        None
    } else {
        match first_unresolved(names, s.drop_last()) {
            Some(x) => Some(x),
            None => if names.contains(s.last()) {
                None
            } else {
                Some(s.last())
            },
        }
    }
}

/// The error a recipe's first dangling commodity reference raises.
pub open spec fn recipe_defect<F>(cnames: Seq<Seq<char>>, r: ProductionRecipe<F>) -> Option<LoadErrorView> {
    match first_unresolved(cnames, amount_names(r.inputs@ + r.outputs@)) {
        Some(t) => Some(
            LoadErrorView::DanglingRef {
                kind: "recipe/system"@,
                referrer: r.id@,
                target_kind: "commodity"@,
                target: t,
            },
        ),
        None => None,
    }
}

/// The error a system's first defect raises: a dangling industry, connection
/// or stocked commodity, in that order, then an unknown pricing strategy.
pub open spec fn system_defect<F>(
    cnames: Seq<Seq<char>>,
    rnames: Seq<Seq<char>>,
    snames: Seq<Seq<char>>,
    known: Seq<Seq<char>>,
    s: SystemDef<F>,
) -> Option<LoadErrorView> {
    match first_unresolved(rnames, string_views(s.industries@)) {
        Some(t) => Some(
            LoadErrorView::DanglingRef { kind: "system"@, referrer: s.id@, target_kind: "recipe"@, target: t },
        ),
        None => match first_unresolved(snames, string_views(s.connections@)) {
            Some(t) => Some(
                LoadErrorView::DanglingRef { kind: "system"@, referrer: s.id@, target_kind: "system"@, target: t },
            ),
            None => match first_unresolved(cnames, amount_names(s.initial_stock@)) {
                Some(t) => Some(
                    LoadErrorView::DanglingRef {
                        kind: "recipe/system"@,
                        referrer: s.id@,
                        target_kind: "commodity"@,
                        target: t,
                    },
                ),
                None => if known.contains(s.pricing@) {
                    None
                } else {
                    Some(LoadErrorView::UnknownPricing { system: s.id@, strategy: s.pricing@ })
                },
            },
        },
    }
}

/// The first recipe defect, in list order.
pub open spec fn first_recipe_defect<F>(cnames: Seq<Seq<char>>, rs: Seq<ProductionRecipe<F>>) -> Option<LoadErrorView>
    decreases rs.len(),
{
    if rs.len() == 0 {
        None
    } else {
        match first_recipe_defect(cnames, rs.drop_last()) {
            Some(e) => Some(e),
            None => recipe_defect(cnames, rs.last()),
        }
    }
}

/// The first system defect, in list order.
pub open spec fn first_system_defect<F>(
    cnames: Seq<Seq<char>>,
    rnames: Seq<Seq<char>>,
    snames: Seq<Seq<char>>,
    known: Seq<Seq<char>>,
    ss: Seq<SystemDef<F>>,
) -> Option<LoadErrorView>
    decreases ss.len(),
{
    if ss.len() == 0 {
        None
    } else {
        match first_system_defect(cnames, rnames, snames, known, ss.drop_last()) {
            Some(e) => Some(e),
            None => system_defect(cnames, rnames, snames, known, ss.last()),
        }
    }
}

/// The error linking `m` against the `known` pricing strategies raises: the
/// first recipe defect, else the first system defect; `None` when everything
/// resolves.
pub open spec fn link_error<F>(m: MergedContent<F>, known: Seq<Seq<char>>) -> Option<LoadErrorView> {
    let cnames = commodity_ids(m.commodities@);
    match first_recipe_defect(cnames, m.recipes@) {
        Some(e) => Some(e),
        None => first_system_defect(
            cnames,
            recipe_ids(m.recipes@),
            system_ids(m.systems@),
            known,
            m.systems@,
        ),
    }
}

/// `v` resolves the commodity amounts `a` against the name table `names`.
pub open spec fn amounts_resolved(names: Seq<Seq<char>>, a: Seq<CommodityAmount>, v: Seq<(CommodityId, Quantity)>) -> bool {
    &&& v.len() == a.len()
    &&& forall|j: int|
        0 <= j < v.len() ==> (#[trigger] v[j]).0.0 < names.len() && names[v[j].0.0 as int] == a[j].commodity@
            && v[j].1 == a[j].qty
}

/// `v` resolves the names `s` against the name table `names`.
pub open spec fn handles_resolved(names: Seq<Seq<char>>, s: Seq<String>, v: Seq<u32>) -> bool {
    &&& v.len() == s.len()
    &&& forall|j: int| 0 <= j < v.len() ==> (#[trigger] v[j]) < names.len() && names[v[j] as int] == s[j]@
}

/// `res` is `src` with its references resolved.
pub open spec fn recipe_resolved<F>(
    cnames: Seq<Seq<char>>,
    rnames: Seq<Seq<char>>,
    src: ProductionRecipe<F>,
    res: ResolvedRecipe<F>,
) -> bool {
    &&& res.id.0 < rnames.len()
    &&& rnames[res.id.0 as int] == src.id@
    &&& amounts_resolved(cnames, src.inputs@, res.inputs@)
    &&& amounts_resolved(cnames, src.outputs@, res.outputs@)
    &&& res.rate == src.rate
    &&& res.elasticity == src.elasticity
}

/// `res` is `src` with its references resolved.
pub open spec fn system_resolved<F>(
    cnames: Seq<Seq<char>>,
    rnames: Seq<Seq<char>>,
    snames: Seq<Seq<char>>,
    src: SystemDef<F>,
    res: ResolvedSystem<F>,
) -> bool {
    &&& res.id.0 < snames.len()
    &&& snames[res.id.0 as int] == src.id@
    &&& res.name@ == src.name@
    &&& res.position == src.position
    &&& handles_resolved(rnames, src.industries@, res.industries@.map_values(|h: RecipeId| h.0))
    &&& handles_resolved(snames, src.connections@, res.connections@.map_values(|h: SystemId| h.0))
    &&& amounts_resolved(cnames, src.initial_stock@, res.initial_stock@)
    &&& res.pricing@ == src.pricing@
    &&& res.danger == src.danger
}

/// The names of `ids` in the order of their first occurrence, each once.
pub open spec fn first_occurrences(ids: Seq<Seq<char>>) -> Seq<Seq<char>>
    decreases ids.len(),
{
    if ids.len() == 0 {
        Seq::empty()
    } else {
        let p = first_occurrences(ids.drop_last());
        if p.contains(ids.last()) {
            p
        } else {
            p.push(ids.last())
        }
    }
}

/// An interner table built from `ids` in order: each name of `ids` once, in
/// the order of its first occurrence (so with distinct ids, `ids` itself).
pub open spec fn table_of(table: Seq<Seq<char>>, ids: Seq<Seq<char>>) -> bool {
    &&& table == first_occurrences(ids)
    &&& forall|n: Seq<char>| #[trigger] table.contains(n) <==> ids.contains(n)
    &&& table.len() <= ids.len()
    &&& distinct(ids) ==> table == ids
}

// ---------------------------------------------------------------------------
// The registry
// ---------------------------------------------------------------------------

/// Immutable, fully-linked game data. Vectors are indexed by the corresponding
/// handle's `.index()`; the interners provide id<->handle and handle->name.
#[derive(Debug)]
pub struct Registry<F> {
    commodity_ids: Interner,
    commodities: Vec<CommodityDef<F>>,
    recipe_ids: Interner,
    recipes: Vec<ResolvedRecipe<F>>,
    system_ids: Interner,
    systems: Vec<ResolvedSystem<F>>,
    ship_ids: Interner,
    ships: Vec<ShipDef<F>>,
}

/// Every handle in a resolved amount list indexes the commodity table.
pub open spec fn amounts_in(v: Seq<(CommodityId, Quantity)>, n: nat) -> bool {
    forall|j: int| 0 <= j < v.len() ==> (#[trigger] v[j]).0.0 < n
}

impl<F> Registry<F> {
    /// Commodity id names, indexed by handle.
    pub closed spec fn commodity_names(&self) -> Seq<Seq<char>> {
        self.commodity_ids@
    }

    /// Recipe id names, indexed by handle.
    pub closed spec fn recipe_names(&self) -> Seq<Seq<char>> {
        self.recipe_ids@
    }

    /// System id names, indexed by handle.
    pub closed spec fn system_names(&self) -> Seq<Seq<char>> {
        self.system_ids@
    }

    /// Ship id names, indexed by handle.
    pub closed spec fn ship_names(&self) -> Seq<Seq<char>> {
        self.ship_ids@
    }

    /// The commodity definitions, indexed by handle.
    pub closed spec fn commodity_defs(&self) -> Seq<CommodityDef<F>> {
        self.commodities@
    }

    /// The resolved recipes, indexed by handle.
    pub closed spec fn recipe_list(&self) -> Seq<ResolvedRecipe<F>> {
        self.recipes@
    }

    /// The resolved systems, indexed by handle.
    pub closed spec fn system_list(&self) -> Seq<ResolvedSystem<F>> {
        self.systems@
    }

    /// The ship definitions, indexed by handle.
    pub closed spec fn ship_defs(&self) -> Seq<ShipDef<F>> {
        self.ships@
    }

    /// Every handle stored in the registry indexes the table it refers to.
    pub open spec fn fully_connected(&self) -> bool {
        &&& self.commodity_names().len() <= self.commodity_defs().len()
        &&& self.recipe_names().len() <= self.recipe_list().len()
        &&& self.system_names().len() <= self.system_list().len()
        &&& self.ship_names().len() <= self.ship_defs().len()
        &&& forall|i: int|
            0 <= i < self.recipe_list().len() ==> {
                let r = #[trigger] self.recipe_list()[i];
                &&& r.id.0 < self.recipe_names().len()
                &&& amounts_in(r.inputs@, self.commodity_names().len())
                &&& amounts_in(r.outputs@, self.commodity_names().len())
            }
        &&& forall|i: int|
            0 <= i < self.system_list().len() ==> {
                let s = #[trigger] self.system_list()[i];
                &&& s.id.0 < self.system_names().len()
                &&& forall|j: int| 0 <= j < s.industries@.len() ==> (#[trigger] s.industries@[j]).0 < self.recipe_names().len()
                &&& forall|j: int| 0 <= j < s.connections@.len() ==> (#[trigger] s.connections@[j]).0 < self.system_names().len()
                &&& amounts_in(s.initial_stock@, self.commodity_names().len())
            }
    }

    // --- commodities ---
    pub fn commodity_count(&self) -> (r: usize)
        ensures
            r == self.commodity_defs().len(),
    {
        self.commodities.len()
    }

    pub fn commodity(&self, id: CommodityId) -> (r: &CommodityDef<F>)
        requires
            id.0 < self.commodity_defs().len(),
        ensures
            *r == self.commodity_defs()[id.0 as int],
    {
        &self.commodities[id.index()]
    }

    pub fn commodity_id(&self, name: &str) -> (r: Option<CommodityId>)
        ensures
            r is None <==> !self.commodity_names().contains(name@),
            r matches Some(c) ==> c.0 < self.commodity_names().len() && self.commodity_names()[c.0 as int] == name@,
    {
        match self.commodity_ids.get(name) {
            Some(i) => Some(CommodityId(i)),
            None => None,
        }
    }

    pub fn commodity_name(&self, id: CommodityId) -> (r: &str)
        ensures
            id.0 < self.commodity_names().len() ==> r@ == self.commodity_names()[id.0 as int],
            id.0 >= self.commodity_names().len() ==> r@ == "?"@,
    {
        match self.commodity_ids.name(id.0) {
            Some(n) => n,
            None => "?",
        }
    }

    /// The `(handle, definition)` pairs in handle order.
    pub fn commodities(&self) -> (r: Vec<(CommodityId, &CommodityDef<F>)>)
        requires
            self.commodity_defs().len() <= u32::MAX,
        ensures
            r@.len() == self.commodity_defs().len(),
            forall|i: int| 0 <= i < r@.len() ==> (#[trigger] r@[i]).0 == CommodityId(i as u32) && *r@[i].1 == self.commodity_defs()[i],
    {
        let n = self.commodities.len();
        let mut out: Vec<(CommodityId, &CommodityDef<F>)> = Vec::new();
        let mut i: usize = 0;
        while i < n
            invariant
                n == self.commodities@.len(),
                n <= u32::MAX,
                i <= n,
                out@.len() == i,
                forall|k: int| 0 <= k < i ==> (#[trigger] out@[k]).0 == CommodityId(k as u32) && *out@[k].1 == self.commodities@[k],
            decreases n - i,
        {
            out.push((CommodityId(i as u32), &self.commodities[i]));
            i = i + 1;
        }
        out
    }

    // --- recipes ---
    pub fn recipe(&self, id: RecipeId) -> (r: &ResolvedRecipe<F>)
        requires
            id.0 < self.recipe_list().len(),
        ensures
            *r == self.recipe_list()[id.0 as int],
    {
        &self.recipes[id.index()]
    }

    pub fn recipe_id(&self, name: &str) -> (r: Option<RecipeId>)
        ensures
            r is None <==> !self.recipe_names().contains(name@),
            r matches Some(c) ==> c.0 < self.recipe_names().len() && self.recipe_names()[c.0 as int] == name@,
    {
        match self.recipe_ids.get(name) {
            Some(i) => Some(RecipeId(i)),
            None => None,
        }
    }

    pub fn recipe_name(&self, id: RecipeId) -> (r: &str)
        ensures
            id.0 < self.recipe_names().len() ==> r@ == self.recipe_names()[id.0 as int],
            id.0 >= self.recipe_names().len() ==> r@ == "?"@,
    {
        match self.recipe_ids.name(id.0) {
            Some(n) => n,
            None => "?",
        }
    }

    pub fn recipe_count(&self) -> (r: usize)
        ensures
            r == self.recipe_list().len(),
    {
        self.recipes.len()
    }

    // --- systems ---
    pub fn system_count(&self) -> (r: usize)
        ensures
            r == self.system_list().len(),
    {
        self.systems.len()
    }

    pub fn system(&self, id: SystemId) -> (r: &ResolvedSystem<F>)
        requires
            id.0 < self.system_list().len(),
        ensures
            *r == self.system_list()[id.0 as int],
    {
        &self.systems[id.index()]
    }

    pub fn system_id(&self, name: &str) -> (r: Option<SystemId>)
        ensures
            r is None <==> !self.system_names().contains(name@),
            r matches Some(c) ==> c.0 < self.system_names().len() && self.system_names()[c.0 as int] == name@,
    {
        match self.system_ids.get(name) {
            Some(i) => Some(SystemId(i)),
            None => None,
        }
    }

    pub fn system_name(&self, id: SystemId) -> (r: &str)
        ensures
            id.0 < self.system_names().len() ==> r@ == self.system_names()[id.0 as int],
            id.0 >= self.system_names().len() ==> r@ == "?"@,
    {
        match self.system_ids.name(id.0) {
            Some(n) => n,
            None => "?",
        }
    }

    /// The resolved systems in handle order.
    pub fn systems(&self) -> (r: &[ResolvedSystem<F>])
        ensures
            r@ == self.system_list(),
    {
        self.systems.as_slice()
    }

    // --- ships ---
    pub fn ship_id(&self, name: &str) -> (r: Option<ShipId>)
        ensures
            r is None <==> !self.ship_names().contains(name@),
            r matches Some(c) ==> c.0 < self.ship_names().len() && self.ship_names()[c.0 as int] == name@,
    {
        match self.ship_ids.get(name) {
            Some(i) => Some(ShipId(i)),
            None => None,
        }
    }

    pub fn ship(&self, id: ShipId) -> (r: &ShipDef<F>)
        requires
            id.0 < self.ship_defs().len(),
        ensures
            *r == self.ship_defs()[id.0 as int],
    {
        &self.ships[id.index()]
    }

    pub fn ship_count(&self) -> (r: usize)
        ensures
            r == self.ship_defs().len(),
    {
        self.ships.len()
    }
}

} // verus!

verus! {

// ---------------------------------------------------------------------------
// Lemmas about first defects
// ---------------------------------------------------------------------------

/// `first_unresolved` depends only on which names the table holds.
pub proof fn lemma_first_unresolved_same(n1: Seq<Seq<char>>, n2: Seq<Seq<char>>, s: Seq<Seq<char>>)
    requires
        forall|x: Seq<char>| #[trigger] n1.contains(x) <==> n2.contains(x),
    ensures
        first_unresolved(n1, s) == first_unresolved(n2, s),
    decreases s.len(),
{
    if s.len() > 0 {
        lemma_first_unresolved_same(n1, n2, s.drop_last());
        assert(n1.contains(s.last()) <==> n2.contains(s.last()));
    }
}

/// A defect in a prefix is the defect of the whole sequence.
pub proof fn lemma_first_unresolved_prefix(names: Seq<Seq<char>>, s: Seq<Seq<char>>, k: int)
    requires
        0 <= k <= s.len(),
        first_unresolved(names, s.take(k)) is Some,
    ensures
        first_unresolved(names, s) == first_unresolved(names, s.take(k)),
    decreases s.len() - k,
{
    if k == s.len() {
        assert(s.take(k) =~= s);
    } else {
        assert(s.take(k + 1).drop_last() =~= s.take(k));
        lemma_first_unresolved_prefix(names, s, k + 1);
    }
}

/// Extending a defect-free prefix by one name.
pub proof fn lemma_first_unresolved_step(names: Seq<Seq<char>>, s: Seq<Seq<char>>, k: int)
    requires
        0 <= k < s.len(),
        first_unresolved(names, s.take(k)) is None,
    ensures
        names.contains(s[k]) ==> first_unresolved(names, s.take(k + 1)) is None,
        !names.contains(s[k]) ==> first_unresolved(names, s.take(k + 1)) == Some(s[k]),
{
    assert(s.take(k + 1).drop_last() =~= s.take(k));
}

/// The first defect of a concatenation.
pub proof fn lemma_first_unresolved_concat(names: Seq<Seq<char>>, a: Seq<Seq<char>>, b: Seq<Seq<char>>)
    ensures
        first_unresolved(names, a + b) == (match first_unresolved(names, a) {
            Some(x) => Some(x),
            None => first_unresolved(names, b),
        }),
    decreases b.len(),
{
    if b.len() == 0 {
        assert(a + b =~= a);
    } else {
        assert((a + b).drop_last() =~= a + b.drop_last());
        lemma_first_unresolved_concat(names, a, b.drop_last());
    }
}

/// A recipe defect in a prefix is the first recipe defect of the whole list.
pub proof fn lemma_first_recipe_defect_prefix<F>(c: Seq<Seq<char>>, rs: Seq<ProductionRecipe<F>>, k: int)
    requires
        0 <= k <= rs.len(),
        first_recipe_defect(c, rs.take(k)) is Some,
    ensures
        first_recipe_defect(c, rs) == first_recipe_defect(c, rs.take(k)),
    decreases rs.len() - k,
{
    if k == rs.len() {
        assert(rs.take(k) =~= rs);
    } else {
        assert(rs.take(k + 1).drop_last() =~= rs.take(k));
        lemma_first_recipe_defect_prefix(c, rs, k + 1);
    }
}

/// A system defect in a prefix is the first system defect of the whole list.
pub proof fn lemma_first_system_defect_prefix<F>(
    c: Seq<Seq<char>>,
    r: Seq<Seq<char>>,
    s: Seq<Seq<char>>,
    known: Seq<Seq<char>>,
    ss: Seq<SystemDef<F>>,
    k: int,
)
    requires
        0 <= k <= ss.len(),
        first_system_defect(c, r, s, known, ss.take(k)) is Some,
    ensures
        first_system_defect(c, r, s, known, ss) == first_system_defect(c, r, s, known, ss.take(k)),
    decreases ss.len() - k,
{
    if k == ss.len() {
        assert(ss.take(k) =~= ss);
    } else {
        assert(ss.take(k + 1).drop_last() =~= ss.take(k));
        lemma_first_system_defect_prefix(c, r, s, known, ss, k + 1);
    }
}

// ---------------------------------------------------------------------------
// Building the tables
// ---------------------------------------------------------------------------

/// Interning the next id keeps the table a table of the ids seen so far.
proof fn lemma_table_step(before: Seq<Seq<char>>, after: Seq<Seq<char>>, ids: Seq<Seq<char>>, i: int, id: u32)
    requires
        0 <= i < ids.len(),
        table_of(before, ids.take(i)),
        before.contains(ids[i]) ==> after == before,
        !before.contains(ids[i]) ==> after == before.push(ids[i]),
    ensures
        table_of(after, ids.take(i + 1)),
{
    let t1 = ids.take(i + 1);
    assert(t1 =~= ids.take(i).push(ids[i]));
    assert(t1.drop_last() =~= ids.take(i));
    assert(after == first_occurrences(t1));
    assert forall|n: Seq<char>| #[trigger] after.contains(n) <==> t1.contains(n) by {
        if after.contains(n) && !before.contains(n) {
            assert(n == ids[i]);
            assert(t1[i] == n);
        }
        if t1.contains(n) {
            let j = choose|j: int| 0 <= j < t1.len() && t1[j] == n;
            if j < i {
                assert(ids.take(i)[j] == n);
                assert(before.contains(n));
                if !before.contains(ids[i]) {
                    assert(after[before.index_of(n)] == n);
                }
            } else {
                if !before.contains(ids[i]) {
                    assert(after[before.len() as int] == n);
                }
            }
        }
        if before.contains(n) && !before.contains(ids[i]) {
            assert(after[before.index_of(n)] == n);
        }
    }
    if distinct(t1) {
        assert(distinct(ids.take(i))) by {
            assert forall|a: int, b: int| 0 <= a < ids.take(i).len() && 0 <= b < ids.take(i).len() && a != b
                implies ids.take(i)[a] != ids.take(i)[b] by {
                assert(ids.take(i)[a] == t1[a]);
                assert(ids.take(i)[b] == t1[b]);
            }
        }
        if before.contains(ids[i]) {
            let j = choose|j: int| 0 <= j < before.len() && before[j] == ids[i];
            assert(ids.take(i)[j] == t1[j]);
            assert(t1[i] == ids[i]);
        }
        assert(after =~= t1);
    }
    assert(after.len() <= t1.len());
    assert(forall|n: Seq<char>| #[trigger] after.contains(n) <==> t1.contains(n));
}

fn commodity_table<F>(defs: &Vec<CommodityDef<F>>) -> (t: Interner)
    requires
        defs@.len() <= u32::MAX,
    ensures
        table_of(t@, commodity_ids(defs@)),
{
    let ghost ids = commodity_ids(defs@);
    let mut t = Interner::new();
    let n = defs.len();
    let mut i: usize = 0;
    assert(ids.take(0) =~= Seq::<Seq<char>>::empty());
    while i < n
        invariant
            n == defs@.len(),
            n <= u32::MAX,
            i <= n,
            ids == commodity_ids(defs@),
            table_of(t@, ids.take(i as int)),
        decreases n - i,
    {
        let ghost before = t@;
        let id = t.intern(defs[i].id.as_str());
        proof {
            lemma_table_step(before, t@, ids, i as int, id);
        }
        i = i + 1;
    }
    assert(ids.take(n as int) =~= ids);
    t
}

fn recipe_table<F>(defs: &Vec<ProductionRecipe<F>>) -> (t: Interner)
    requires
        defs@.len() <= u32::MAX,
    ensures
        table_of(t@, recipe_ids(defs@)),
{
    let ghost ids = recipe_ids(defs@);
    let mut t = Interner::new();
    let n = defs.len();
    let mut i: usize = 0;
    assert(ids.take(0) =~= Seq::<Seq<char>>::empty());
    while i < n
        invariant
            n == defs@.len(),
            n <= u32::MAX,
            i <= n,
            ids == recipe_ids(defs@),
            table_of(t@, ids.take(i as int)),
        decreases n - i,
    {
        let ghost before = t@;
        let id = t.intern(defs[i].id.as_str());
        proof {
            lemma_table_step(before, t@, ids, i as int, id);
        }
        i = i + 1;
    }
    assert(ids.take(n as int) =~= ids);
    t
}

fn system_table<F>(defs: &Vec<SystemDef<F>>) -> (t: Interner)
    requires
        defs@.len() <= u32::MAX,
    ensures
        table_of(t@, system_ids(defs@)),
{
    let ghost ids = system_ids(defs@);
    let mut t = Interner::new();
    let n = defs.len();
    let mut i: usize = 0;
    assert(ids.take(0) =~= Seq::<Seq<char>>::empty());
    while i < n
        invariant
            n == defs@.len(),
            n <= u32::MAX,
            i <= n,
            ids == system_ids(defs@),
            table_of(t@, ids.take(i as int)),
        decreases n - i,
    {
        let ghost before = t@;
        let id = t.intern(defs[i].id.as_str());
        proof {
            lemma_table_step(before, t@, ids, i as int, id);
        }
        i = i + 1;
    }
    assert(ids.take(n as int) =~= ids);
    t
}

fn ship_table<F>(defs: &Vec<ShipDef<F>>) -> (t: Interner)
    requires
        defs@.len() <= u32::MAX,
    ensures
        table_of(t@, ship_ids(defs@)),
{
    let ghost ids = ship_ids(defs@);
    let mut t = Interner::new();
    let n = defs.len();
    let mut i: usize = 0;
    assert(ids.take(0) =~= Seq::<Seq<char>>::empty());
    while i < n
        invariant
            n == defs@.len(),
            n <= u32::MAX,
            i <= n,
            ids == ship_ids(defs@),
            table_of(t@, ids.take(i as int)),
        decreases n - i,
    {
        let ghost before = t@;
        let id = t.intern(defs[i].id.as_str());
        proof {
            lemma_table_step(before, t@, ids, i as int, id);
        }
        i = i + 1;
    }
    assert(ids.take(n as int) =~= ids);
    t
}

} // verus!

verus! {

// ---------------------------------------------------------------------------
// Resolving references
// ---------------------------------------------------------------------------

/// Resolve commodity amounts against a commodity table; the first name the
/// table lacks is the error.
fn resolve_amounts(t: &Interner, a: &Vec<CommodityAmount>) -> (r: Result<Vec<(CommodityId, Quantity)>, String>)
    ensures
        first_unresolved(t@, amount_names(a@)) is None ==> (r matches Ok(v) && amounts_resolved(t@, a@, v@)),
        first_unresolved(t@, amount_names(a@)) matches Some(x) ==> (r matches Err(e) && e@ == x),
{
    let ghost names = amount_names(a@);
    let n = a.len();
    let mut out: Vec<(CommodityId, Quantity)> = Vec::new();
    let mut i: usize = 0;
    assert(names.take(0) =~= Seq::<Seq<char>>::empty());
    while i < n
        invariant
            n == a@.len(),
            names == amount_names(a@),
            i <= n,
            first_unresolved(t@, names.take(i as int)) is None,
            out@.len() == i,
            forall|j: int|
                0 <= j < i ==> (#[trigger] out@[j]).0.0 < t@.len() && t@[out@[j].0.0 as int] == a@[j].commodity@
                    && out@[j].1 == a@[j].qty,
        decreases n - i,
    {
        proof {
            lemma_first_unresolved_step(t@, names, i as int);
        }
        match t.get(a[i].commodity.as_str()) {
            Some(id) => {
                out.push((CommodityId(id), a[i].qty));
            },
            None => {
                proof {
                    lemma_first_unresolved_prefix(t@, names, i + 1);
                }
                return Err(a[i].commodity.clone());
            },
        }
        i = i + 1;
    }
    assert(names.take(n as int) =~= names);
    Ok(out)
}

/// Resolve recipe ids against a recipe table.
fn resolve_recipe_refs(t: &Interner, s: &Vec<String>) -> (r: Result<Vec<RecipeId>, String>)
    ensures
        first_unresolved(t@, string_views(s@)) is None ==> (r matches Ok(v) && handles_resolved(
            t@,
            s@,
            v@.map_values(|h: RecipeId| h.0),
        )),
        first_unresolved(t@, string_views(s@)) matches Some(x) ==> (r matches Err(e) && e@ == x),
{
    let ghost names = string_views(s@);
    let n = s.len();
    let mut out: Vec<RecipeId> = Vec::new();
    let mut i: usize = 0;
    assert(names.take(0) =~= Seq::<Seq<char>>::empty());
    while i < n
        invariant
            n == s@.len(),
            names == string_views(s@),
            i <= n,
            first_unresolved(t@, names.take(i as int)) is None,
            out@.len() == i,
            forall|j: int| 0 <= j < i ==> (#[trigger] out@[j]).0 < t@.len() && t@[out@[j].0 as int] == s@[j]@,
        decreases n - i,
    {
        proof {
            lemma_first_unresolved_step(t@, names, i as int);
        }
        match t.get(s[i].as_str()) {
            Some(id) => {
                out.push(RecipeId(id));
            },
            None => {
                proof {
                    lemma_first_unresolved_prefix(t@, names, i + 1);
                }
                return Err(s[i].clone());
            },
        }
        i = i + 1;
    }
    assert(names.take(n as int) =~= names);
    Ok(out)
}

/// Resolve system ids against a system table.
fn resolve_system_refs(t: &Interner, s: &Vec<String>) -> (r: Result<Vec<SystemId>, String>)
    ensures
        first_unresolved(t@, string_views(s@)) is None ==> (r matches Ok(v) && handles_resolved(
            t@,
            s@,
            v@.map_values(|h: SystemId| h.0),
        )),
        first_unresolved(t@, string_views(s@)) matches Some(x) ==> (r matches Err(e) && e@ == x),
{
    let ghost names = string_views(s@);
    let n = s.len();
    let mut out: Vec<SystemId> = Vec::new();
    let mut i: usize = 0;
    assert(names.take(0) =~= Seq::<Seq<char>>::empty());
    while i < n
        invariant
            n == s@.len(),
            names == string_views(s@),
            i <= n,
            first_unresolved(t@, names.take(i as int)) is None,
            out@.len() == i,
            forall|j: int| 0 <= j < i ==> (#[trigger] out@[j]).0 < t@.len() && t@[out@[j].0 as int] == s@[j]@,
        decreases n - i,
    {
        proof {
            lemma_first_unresolved_step(t@, names, i as int);
        }
        match t.get(s[i].as_str()) {
            Some(id) => {
                out.push(SystemId(id));
            },
            None => {
                proof {
                    lemma_first_unresolved_prefix(t@, names, i + 1);
                }
                return Err(s[i].clone());
            },
        }
        i = i + 1;
    }
    assert(names.take(n as int) =~= names);
    Ok(out)
}

/// Whether `s` is one of `list`.
fn contains_string(list: &[String], s: &String) -> (r: bool)
    ensures
        r == string_views(list@).contains(s@),
{
    let n = list.len();
    let mut i: usize = 0;
    while i < n
        invariant
            n == list@.len(),
            i <= n,
            forall|j: int| 0 <= j < i ==> (#[trigger] list@[j])@ != s@,
        decreases n - i,
    {
        if list[i] == *s {
            assert(string_views(list@)[i as int] == s@);
            return true;
        }
        i = i + 1;
    }
    proof {
        if string_views(list@).contains(s@) {
            let j = choose|j: int| 0 <= j < string_views(list@).len() && string_views(list@)[j] == s@;
            assert(list@[j]@ == s@);
        }
    }
    false
}

} // verus!

verus! {

/// What a successful link yields from `m`.
pub open spec fn linked_from<F>(reg: Registry<F>, m: MergedContent<F>, known: Seq<Seq<char>>) -> bool {
    &&& reg.fully_connected()
    &&& table_of(reg.commodity_names(), commodity_ids(m.commodities@))
    &&& table_of(reg.recipe_names(), recipe_ids(m.recipes@))
    &&& table_of(reg.system_names(), system_ids(m.systems@))
    &&& table_of(reg.ship_names(), ship_ids(m.ships@))
    &&& reg.commodity_defs() == m.commodities@
    &&& reg.ship_defs() == m.ships@
    &&& reg.recipe_list().len() == m.recipes@.len()
    &&& forall|i: int|
        0 <= i < m.recipes@.len() ==> recipe_resolved(
            reg.commodity_names(),
            reg.recipe_names(),
            m.recipes@[i],
            #[trigger] reg.recipe_list()[i],
        )
    &&& reg.system_list().len() == m.systems@.len()
    &&& forall|i: int|
        0 <= i < m.systems@.len() ==> system_resolved(
            reg.commodity_names(),
            reg.recipe_names(),
            reg.system_names(),
            m.systems@[i],
            #[trigger] reg.system_list()[i],
        )
    &&& forall|i: int| 0 <= i < m.systems@.len() ==> known.contains((#[trigger] reg.system_list()[i]).pricing@)
}

/// Link merged content into a [`Registry`], validating every reference.
///
/// `known_pricing` is the set of pricing strategy names the caller has
/// registered; passing it in keeps linking ignorant of the economy while still
/// failing fast on a bad `pricing` name. Recipes are checked first, in order
/// (inputs, then outputs), then systems (industries, connections, stock,
/// pricing); the first defect found is the error.
pub fn link<F: Copy>(merged: MergedContent<F>, known_pricing: &[String]) -> (r: Result<Registry<F>, LoadError>)
    requires
        merged.commodities@.len() <= u32::MAX,
        merged.recipes@.len() <= u32::MAX,
        merged.systems@.len() <= u32::MAX,
        merged.ships@.len() <= u32::MAX,
    ensures
        r is Ok <==> link_error(merged, string_views(known_pricing@)) is None,
        r matches Err(e) ==> link_error(merged, string_views(known_pricing@)) == Some(e@),
        r matches Ok(reg) ==> linked_from(reg, merged, string_views(known_pricing@)),
{
    let ghost known = string_views(known_pricing@);
    let ghost cnames = commodity_ids(merged.commodities@);
    let ghost rnames = recipe_ids(merged.recipes@);
    let ghost snames = system_ids(merged.systems@);
    // Intern all ids first so references may point forward or backward freely.
    let ct = commodity_table(&merged.commodities);
    let rt = recipe_table(&merged.recipes);
    let st = system_table(&merged.systems);
    let ht = ship_table(&merged.ships);

    // Resolve recipes.
    let ghost rs = merged.recipes@;
    let nr = merged.recipes.len();
    let mut recipes: Vec<ResolvedRecipe<F>> = Vec::new();
    let mut i: usize = 0;
    assert(rs.take(0) =~= Seq::<ProductionRecipe<F>>::empty());
    while i < nr
        invariant
            nr == rs.len(),
            rs == merged.recipes@,
            i <= nr,
            table_of(ct@, cnames),
            table_of(rt@, rnames),
            cnames == commodity_ids(merged.commodities@),
            rnames == recipe_ids(merged.recipes@),
            first_recipe_defect(cnames, rs.take(i as int)) is None,
            recipes@.len() == i,
            forall|k: int| 0 <= k < i ==> recipe_resolved(ct@, rt@, rs[k], #[trigger] recipes@[k]),
        decreases nr - i,
    {
        let r = &merged.recipes[i];
        proof {
            assert(rs.take(i + 1).drop_last() =~= rs.take(i as int));
            assert(rnames[i as int] == r.id@);
            assert(rt@.contains(r.id@));
            lemma_first_unresolved_same(ct@, cnames, amount_names(r.inputs@));
            lemma_first_unresolved_same(ct@, cnames, amount_names(r.outputs@));
            assert(amount_names(r.inputs@ + r.outputs@) =~= amount_names(r.inputs@) + amount_names(r.outputs@));
            lemma_first_unresolved_concat(cnames, amount_names(r.inputs@), amount_names(r.outputs@));
        }
        let rid = match rt.get(r.id.as_str()) {
            Some(x) => x,
            None => {
                assert(false);
                0
            },
        };
        let inputs = match resolve_amounts(&ct, &r.inputs) {
            Ok(v) => v,
            Err(t) => {
                let e = LoadError::DanglingRef {
                    kind: "recipe/system",
                    referrer: r.id.clone(),
                    target_kind: "commodity",
                    target: t,
                };
                proof {
                    lemma_first_recipe_defect_prefix(cnames, rs, i + 1);
                }
                return Err(e);
            },
        };
        let outputs = match resolve_amounts(&ct, &r.outputs) {
            Ok(v) => v,
            Err(t) => {
                let e = LoadError::DanglingRef {
                    kind: "recipe/system",
                    referrer: r.id.clone(),
                    target_kind: "commodity",
                    target: t,
                };
                proof {
                    lemma_first_recipe_defect_prefix(cnames, rs, i + 1);
                }
                return Err(e);
            },
        };
        recipes.push(ResolvedRecipe { id: RecipeId(rid), inputs, outputs, rate: r.rate, elasticity: r.elasticity });
        i = i + 1;
    }
    assert(rs.take(nr as int) =~= rs);

    // Resolve systems.
    let ghost ss = merged.systems@;
    let ns = merged.systems.len();
    let mut systems: Vec<ResolvedSystem<F>> = Vec::new();
    let mut i: usize = 0;
    assert(ss.take(0) =~= Seq::<SystemDef<F>>::empty());
    while i < ns
        invariant
            ns == ss.len(),
            ss == merged.systems@,
            i <= ns,
            table_of(ct@, cnames),
            table_of(rt@, rnames),
            table_of(st@, snames),
            cnames == commodity_ids(merged.commodities@),
            rnames == recipe_ids(merged.recipes@),
            snames == system_ids(merged.systems@),
            known == string_views(known_pricing@),
            first_recipe_defect(cnames, merged.recipes@) is None,
            first_system_defect(cnames, rnames, snames, known, ss.take(i as int)) is None,
            systems@.len() == i,
            forall|k: int| 0 <= k < i ==> system_resolved(ct@, rt@, st@, ss[k], #[trigger] systems@[k]),
            forall|k: int| 0 <= k < i ==> known.contains((#[trigger] systems@[k]).pricing@),
        decreases ns - i,
    {
        let s = &merged.systems[i];
        proof {
            assert(ss.take(i + 1).drop_last() =~= ss.take(i as int));
            assert(snames[i as int] == s.id@);
            assert(st@.contains(s.id@));
            lemma_first_unresolved_same(rt@, rnames, string_views(s.industries@));
            lemma_first_unresolved_same(st@, snames, string_views(s.connections@));
            lemma_first_unresolved_same(ct@, cnames, amount_names(s.initial_stock@));
        }
        let sid = match st.get(s.id.as_str()) {
            Some(x) => x,
            None => {
                assert(false);
                0
            },
        };
        let industries = match resolve_recipe_refs(&rt, &s.industries) {
            Ok(v) => v,
            Err(t) => {
                let e = LoadError::DanglingRef {
                    kind: "system",
                    referrer: s.id.clone(),
                    target_kind: "recipe",
                    target: t,
                };
                proof {
                    lemma_first_system_defect_prefix(cnames, rnames, snames, known, ss, i + 1);
                }
                return Err(e);
            },
        };
        let connections = match resolve_system_refs(&st, &s.connections) {
            Ok(v) => v,
            Err(t) => {
                let e = LoadError::DanglingRef {
                    kind: "system",
                    referrer: s.id.clone(),
                    target_kind: "system",
                    target: t,
                };
                proof {
                    lemma_first_system_defect_prefix(cnames, rnames, snames, known, ss, i + 1);
                }
                return Err(e);
            },
        };
        let initial_stock = match resolve_amounts(&ct, &s.initial_stock) {
            Ok(v) => v,
            Err(t) => {
                let e = LoadError::DanglingRef {
                    kind: "recipe/system",
                    referrer: s.id.clone(),
                    target_kind: "commodity",
                    target: t,
                };
                proof {
                    lemma_first_system_defect_prefix(cnames, rnames, snames, known, ss, i + 1);
                }
                return Err(e);
            },
        };
        if !contains_string(known_pricing, &s.pricing) {
            let e = LoadError::UnknownPricing { system: s.id.clone(), strategy: s.pricing.clone() };
            proof {
                lemma_first_system_defect_prefix(cnames, rnames, snames, known, ss, i + 1);
            }
            return Err(e);
        }
        systems.push(
            ResolvedSystem {
                id: SystemId(sid),
                name: s.name.clone(),
                position: s.position,
                industries,
                connections,
                initial_stock,
                pricing: s.pricing.clone(),
                danger: s.danger,
            },
        );
        i = i + 1;
    }
    assert(ss.take(ns as int) =~= ss);

    let reg = Registry {
        commodity_ids: ct,
        commodities: merged.commodities,
        recipe_ids: rt,
        recipes,
        system_ids: st,
        systems,
        ship_ids: ht,
        ships: merged.ships,
    };
    proof {
        assert forall|i: int| 0 <= i < reg.recipe_list().len() implies {
            let r = #[trigger] reg.recipe_list()[i];
            &&& r.id.0 < reg.recipe_names().len()
            &&& amounts_in(r.inputs@, reg.commodity_names().len())
            &&& amounts_in(r.outputs@, reg.commodity_names().len())
        } by {
            assert(recipe_resolved(ct@, rt@, rs[i], reg.recipe_list()[i]));
        }
        assert forall|i: int| 0 <= i < reg.system_list().len() implies {
            let s = #[trigger] reg.system_list()[i];
            &&& s.id.0 < reg.system_names().len()
            &&& forall|j: int| 0 <= j < s.industries@.len() ==> (#[trigger] s.industries@[j]).0 < reg.recipe_names().len()
            &&& forall|j: int| 0 <= j < s.connections@.len() ==> (#[trigger] s.connections@[j]).0 < reg.system_names().len()
            &&& amounts_in(s.initial_stock@, reg.commodity_names().len())
        } by {
            let s = reg.system_list()[i];
            assert(system_resolved(ct@, rt@, st@, ss[i], s));
            assert forall|j: int| 0 <= j < s.industries@.len() implies (#[trigger] s.industries@[j]).0 < reg.recipe_names().len() by {
                assert(s.industries@.map_values(|h: RecipeId| h.0)[j] == s.industries@[j].0);
            }
            assert forall|j: int| 0 <= j < s.connections@.len() implies (#[trigger] s.connections@[j]).0 < reg.system_names().len() by {
                assert(s.connections@.map_values(|h: SystemId| h.0)[j] == s.connections@[j].0);
            }
        }
    }
    Ok(reg)
}

} // verus!

verus! {

/// Every jump edge `(from, to)`, systems in order, each system's connections in
/// order.
pub open spec fn all_edges<F>(ss: Seq<ResolvedSystem<F>>) -> Seq<(u32, u32)>
    decreases ss.len(),
{
    if ss.len() == 0 {
        Seq::empty()
    } else {
        all_edges(ss.drop_last()) + ss.last().connections@.map_values(|c: SystemId| (ss.last().id.0, c.0))
    }
}

/// The edges of `es` whose reverse is not an edge of `all`, in order.
pub open spec fn unmirrored(es: Seq<(u32, u32)>, all: Seq<(u32, u32)>) -> Seq<(u32, u32)>
    decreases es.len(),
{
    if es.len() == 0 {
        Seq::empty()
    } else {
        let e = es.last();
        unmirrored(es.drop_last(), all) + if all.contains((e.1, e.0)) {
            Seq::empty()
        } else {
            seq![e]
        }
    }
}

/// The one-way jump connections `(from, to)` of a galaxy: those whose reverse
/// jump is not listed. A one-way jump is usually an authoring mistake, but not
/// fatal; hosts report them as warnings.
pub fn asymmetric_connections<F>(systems: &[ResolvedSystem<F>]) -> (r: Vec<(u32, u32)>)
    ensures
        r@ == unmirrored(all_edges(systems@), all_edges(systems@)),
{
    let ghost ss = systems@;
    // Collect every edge.
    let mut edges: Vec<(u32, u32)> = Vec::new();
    let n = systems.len();
    let mut i: usize = 0;
    assert(ss.take(0) =~= Seq::<ResolvedSystem<F>>::empty());
    while i < n
        invariant
            n == ss.len(),
            ss == systems@,
            i <= n,
            edges@ == all_edges(ss.take(i as int)),
        decreases n - i,
    {
        let s = &systems[i];
        let ghost before = edges@;
        let m = s.connections.len();
        let mut j: usize = 0;
        while j < m
            invariant
                m == s.connections@.len(),
                j <= m,
                edges@ == before + s.connections@.take(j as int).map_values(|c: SystemId| (s.id.0, c.0)),
            decreases m - j,
        {
            edges.push((s.id.0, s.connections[j].0));
            proof {
                assert(s.connections@.take(j + 1).map_values(|c: SystemId| (s.id.0, c.0)) =~= s.connections@.take(
                    j as int,
                ).map_values(|c: SystemId| (s.id.0, c.0)).push((s.id.0, s.connections@[j as int].0)));
                assert(edges@ =~= before + s.connections@.take(j + 1).map_values(|c: SystemId| (s.id.0, c.0)));
            }
            j = j + 1;
        }
        proof {
            assert(s.connections@.take(m as int) =~= s.connections@);
            assert(ss.take(i + 1).drop_last() =~= ss.take(i as int));
            assert(ss.take(i + 1).last() == *s);
        }
        i = i + 1;
    }
    assert(ss.take(n as int) =~= ss);
    let ghost all = edges@;
    // Keep the edges whose reverse is missing.
    let ne = edges.len();
    let mut out: Vec<(u32, u32)> = Vec::new();
    let mut k: usize = 0;
    assert(all.take(0) =~= Seq::<(u32, u32)>::empty());
    while k < ne
        invariant
            ne == all.len(),
            all == edges@,
            k <= ne,
            out@ == unmirrored(all.take(k as int), all),
        decreases ne - k,
    {
        let (a, b) = edges[k];
        let mut found = false;
        let mut x: usize = 0;
        while x < ne
            invariant
                ne == all.len(),
                all == edges@,
                x <= ne,
                found == exists|y: int| 0 <= y < x && all[y] == (b, a),
            decreases ne - x,
        {
            if edges[x].0 == b && edges[x].1 == a {
                found = true;
            }
            x = x + 1;
        }
        proof {
            assert(all.take(k + 1).drop_last() =~= all.take(k as int));
            assert(all.take(k + 1).last() == (a, b));
            if found {
                let y = choose|y: int| 0 <= y < ne && all[y] == (b, a);
                assert(all.contains((b, a)));
            }
        }
        if !found {
            out.push((a, b));
        }
        proof {
            assert(out@ =~= unmirrored(all.take(k + 1), all));
        }
        k = k + 1;
    }
    assert(all.take(ne as int) =~= all);
    out
}

} // verus!
