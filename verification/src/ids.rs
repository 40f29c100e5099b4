//! Typed runtime handles and the string interner that produces them.
//!
//! Content is authored with namespaced string ids (e.g. `"core:food"`). At load
//! time those strings are interned into compact integer handles so the
//! simulation can index by `u32` instead of comparing strings every tick. Defs
//! hold strings; runtime state holds handles.

use vstd::prelude::*;

verus! {

/// Handle for a commodity definition.
#[derive(Debug, Clone, Copy, PartialEq, Eq, Structural, PartialOrd, Ord, Hash)]
pub struct CommodityId(pub u32);

/// Handle for a star system.
#[derive(Debug, Clone, Copy, PartialEq, Eq, Structural, PartialOrd, Ord, Hash)]
pub struct SystemId(pub u32);

/// Handle for a ship definition.
#[derive(Debug, Clone, Copy, PartialEq, Eq, Structural, PartialOrd, Ord, Hash)]
pub struct ShipId(pub u32);

/// Handle for a production recipe.
#[derive(Debug, Clone, Copy, PartialEq, Eq, Structural, PartialOrd, Ord, Hash)]
pub struct RecipeId(pub u32);

impl CommodityId {
    /// The handle as a vector index.
    pub fn index(self) -> (r: usize)
        ensures
            r == self.0,
    {
        self.0 as usize
    }
}

impl SystemId {
    /// The handle as a vector index.
    pub fn index(self) -> (r: usize)
        ensures
            r == self.0,
    {
        self.0 as usize
    }
}

impl ShipId {
    /// The handle as a vector index.
    pub fn index(self) -> (r: usize)
        ensures
            r == self.0,
    {
        self.0 as usize
    }
}

impl RecipeId {
    /// The handle as a vector index.
    pub fn index(self) -> (r: usize)
        ensures
            r == self.0,
    {
        self.0 as usize
    }
}

impl From<u32> for CommodityId {
    fn from(v: u32) -> (r: Self) {
        CommodityId(v)
    }
}

impl vstd::std_specs::convert::FromSpecImpl<u32> for CommodityId {
    open spec fn obeys_from_spec() -> bool {
        true
    }

    open spec fn from_spec(v: u32) -> Self {
        CommodityId(v)
    }
}

impl From<u32> for SystemId {
    fn from(v: u32) -> (r: Self) {
        SystemId(v)
    }
}

impl vstd::std_specs::convert::FromSpecImpl<u32> for SystemId {
    open spec fn obeys_from_spec() -> bool {
        true
    }

    open spec fn from_spec(v: u32) -> Self {
        SystemId(v)
    }
}

impl From<u32> for ShipId {
    fn from(v: u32) -> (r: Self) {
        ShipId(v)
    }
}

impl vstd::std_specs::convert::FromSpecImpl<u32> for ShipId {
    open spec fn obeys_from_spec() -> bool {
        true
    }

    open spec fn from_spec(v: u32) -> Self {
        ShipId(v)
    }
}

impl From<u32> for RecipeId {
    fn from(v: u32) -> (r: Self) {
        RecipeId(v)
    }
}

impl vstd::std_specs::convert::FromSpecImpl<u32> for RecipeId {
    open spec fn obeys_from_spec() -> bool {
        true
    }

    open spec fn from_spec(v: u32) -> Self {
        RecipeId(v)
    }
}

/// A sequence in which no element occurs twice.
pub open spec fn distinct<T>(s: Seq<T>) -> bool {
    forall|i: int, j: int| 0 <= i < s.len() && 0 <= j < s.len() && i != j ==> s[i] != s[j]
}

/// The table after interning `name` into `t`, and the id `name` has there: an
/// interned name keeps its id; a new name is appended with the next id.
pub open spec fn intern_result(t: Seq<Seq<char>>, name: Seq<char>) -> (Seq<Seq<char>>, u32) {
    if t.contains(name) {
        (t, t.index_of(name) as u32)
    } else {
        (t.push(name), t.len() as u32)
    }
}

/// In a sequence without repeats, the index of an element is its position.
pub proof fn lemma_index_of_distinct<T>(s: Seq<T>, i: int)
    requires
        distinct(s),
        0 <= i < s.len(),
    ensures
        s.contains(s[i]),
        s.index_of(s[i]) == i,
{
    assert(s[i] == s[i]);
    let j = s.index_of(s[i]);
    if j != i {
        assert(s[j] == s[i]);
    }
}

/// Bidirectional string <-> `u32` table.
///
/// [`intern`](Interner::intern) inserts-or-returns (used while building content);
/// [`get`](Interner::get) only looks up (used while linking references, so a
/// dangling reference is a lookup miss rather than a silent new id).
///
/// The id of a name is its position in the table; a name occurs at most once.
#[derive(Debug)]
pub struct Interner {
    to_name: Vec<String>,
}

impl View for Interner {
    type V = Seq<Seq<char>>;

    /// The interned names in id order: the name of id `i` is `self@[i]`.
    open spec fn view(&self) -> Seq<Seq<char>> {
        self.spec_names()
    }
}

impl Clone for Interner {
    fn clone(&self) -> (r: Self)
        ensures
            r@ == self@,
    {
        proof {
            use_type_invariant(self);
        }
        let names = self.to_name.clone();
        proof {
            assert forall|i: int| 0 <= i < names@.len() implies names@[i] == self.to_name@[i] by {
                assert(cloned::<String>(self.to_name[i], names[i]));
            }
            assert(names@ =~= self.to_name@);
        }
        Interner { to_name: names }
    }
}

impl Interner {
    /// The interned names in id order.
    pub closed spec fn spec_names(&self) -> Seq<Seq<char>> {
        self.to_name@.map_values(|s: String| s@)
    }

    /// Every name is interned at most once.
    #[verifier::type_invariant]
    closed spec fn names_distinct(self) -> bool {
        &&& distinct(self.to_name@.map_values(|s: String| s@))
        &&& self.to_name@.len() <= u32::MAX
    }

    /// An empty table.
    pub fn new() -> (r: Self)
        ensures
            r@ == Seq::<Seq<char>>::empty(),
    {
        let r = Interner { to_name: Vec::new() };
        assert(r@ =~= Seq::<Seq<char>>::empty());
        r
    }

    /// Position of `key` in the table, if present.
    fn position(&self, key: &String) -> (r: Option<usize>)
        ensures
            r is None <==> !self@.contains(key@),
            r matches Some(i) ==> i < self@.len() && self@[i as int] == key@,
    {
        proof {
            use_type_invariant(self);
        }
        let n = self.to_name.len();
        let mut i: usize = 0;
        while i < n
            invariant
                n == self.to_name@.len(),
                self@ == self.to_name@.map_values(|s: String| s@),
                i <= n,
                forall|j: int| 0 <= j < i ==> self@[j] != key@,
            decreases n - i,
        {
            if self.to_name[i] == *key {
                assert(self@[i as int] == key@);
                return Some(i);
            }
            i = i + 1;
        }
        proof {
            if self@.contains(key@) {
                let k = choose|k: int| 0 <= k < self@.len() && self@[k] == key@;
                assert(self@[k] != key@);
            }
        }
        None
    }

    /// Insert `name` if absent and return its id; otherwise return the existing id.
    pub fn intern(&mut self, name: &str) -> (id: u32)
        requires
            old(self)@.len() < u32::MAX,
        ensures
            (final(self)@, id) == intern_result(old(self)@, name@),
            distinct(final(self)@),
    {
        let key = name.to_owned();
        match self.position(&key) {
            Some(i) => {
                proof {
                    use_type_invariant(&*self);
                    lemma_index_of_distinct(self@, i as int);
                }
                i as u32
            },
            None => {
                let id = self.to_name.len() as u32;
                proof {
                    use_type_invariant(&*self);
                    let s = self.to_name@.map_values(|s: String| s@);
                    let t = self.to_name@.push(key).map_values(|s: String| s@);
                    assert(t =~= s.push(key@));
                    assert forall|a: int, b: int| 0 <= a < t.len() && 0 <= b < t.len() && a != b
                        implies t[a] != t[b] by {
                        if a < s.len() && b < s.len() {
                        } else if a == s.len() {
                            assert(s[b] == t[b]);
                        } else {
                            assert(s[a] == t[a]);
                        }
                    }
                }
                let mut names: Vec<String> = Vec::new();
                std::mem::swap(&mut names, &mut self.to_name);
                names.push(key);
                self.to_name = names;
                proof {
                    assert(self@ =~= old(self)@.push(name@));
                }
                id
            },
        }
    }

    /// Look up an already-interned name. Returns `None` if never interned.
    pub fn get(&self, name: &str) -> (r: Option<u32>)
        ensures
            distinct(self@),
            r is None <==> !self@.contains(name@),
            r matches Some(id) ==> (id as int) < self@.len() && self@[id as int] == name@ && id == self@.index_of(name@),
    {
        proof {
            use_type_invariant(self);
        }
        let key = name.to_owned();
        match self.position(&key) {
            Some(i) => {
                proof {
                    lemma_index_of_distinct(self@, i as int);
                }
                Some(i as u32)
            },
            None => None,
        }
    }

    /// Reverse lookup: the string an id was interned from.
    pub fn name(&self, id: u32) -> (r: Option<&str>)
        ensures
            (id as int) < self@.len() ==> (r matches Some(s) && s@ == self@[id as int]),
            (id as int) >= self@.len() ==> r is None,
    {
        if (id as usize) < self.to_name.len() {
            Some(self.to_name[id as usize].as_str())
        } else {
            None
        }
    }

    /// Number of interned names.
    pub fn len(&self) -> (r: usize)
        ensures
            r == self@.len(),
            distinct(self@),
    {
        proof {
            use_type_invariant(self);
        }
        self.to_name.len()
    }

    /// Whether nothing is interned.
    pub fn is_empty(&self) -> (r: bool)
        ensures
            r == (self@.len() == 0),
    {
        self.to_name.len() == 0
    }

    /// The `(id, name)` pairs in insertion (id) order.
    pub fn iter(&self) -> (r: Vec<(u32, &str)>)
        ensures
            r@.len() == self@.len(),
            forall|i: int| 0 <= i < r@.len() ==> r@[i].0 == i && (#[trigger] r@[i]).1@ == self@[i],
            distinct(self@),
    {
        proof {
            use_type_invariant(self);
        }
        let n = self.to_name.len();
        let mut out: Vec<(u32, &str)> = Vec::new();
        let mut i: usize = 0;
        while i < n
            invariant
                n == self.to_name@.len(),
                self@ == self.to_name@.map_values(|s: String| s@),
                i <= n,
                n <= u32::MAX,
                out@.len() == i,
                forall|j: int| 0 <= j < i ==> out@[j].0 == j && (#[trigger] out@[j]).1@ == self@[j],
            decreases n - i,
        {
            out.push((i as u32, self.to_name[i].as_str()));
            i = i + 1;
        }
        out
    }
}

} // verus!
