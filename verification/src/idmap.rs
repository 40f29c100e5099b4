//! An ordered map keyed by [`CommodityId`]: a vector of entries kept in strictly
//! increasing key order, so iteration order is deterministic (ascending id), as
//! reproducible trader scans and state dumps need.

use vstd::prelude::*;

use crate::ids::CommodityId;

verus! {

/// Keys strictly increase along the sequence.
pub open spec fn sorted_keys<V>(s: Seq<(CommodityId, V)>) -> bool {
    forall|i: int, j: int| 0 <= i < j < s.len() ==> (#[trigger] s[i]).0.0 < (#[trigger] s[j]).0.0
}

/// Some entry of `s` has key `k`.
pub open spec fn seq_has_key<V>(s: Seq<(CommodityId, V)>, k: CommodityId) -> bool {
    exists|i: int| 0 <= i < s.len() && (#[trigger] s[i]).0 == k
}

/// The position of key `k` in `s` (meaningful when `seq_has_key(s, k)`).
pub open spec fn key_pos<V>(s: Seq<(CommodityId, V)>, k: CommodityId) -> int {
    choose|i: int| 0 <= i < s.len() && (#[trigger] s[i]).0 == k
}

/// The map that a sorted entry sequence denotes.
pub open spec fn seq_to_map<V>(s: Seq<(CommodityId, V)>) -> Map<CommodityId, V> {
    Map::new(|k: CommodityId| seq_has_key(s, k), |k: CommodityId| s[key_pos(s, k)].1)
}

/// In a sorted sequence the position of an entry's key is that entry's index.
pub proof fn lemma_key_pos<V>(s: Seq<(CommodityId, V)>, i: int)
    requires
        sorted_keys(s),
        0 <= i < s.len(),
    ensures
        seq_has_key(s, s[i].0),
        key_pos(s, s[i].0) == i,
        seq_to_map(s).contains_key(s[i].0),
        seq_to_map(s)[s[i].0] == s[i].1,
{
    let k = s[i].0;
    assert(s[i].0 == k);
    let j = key_pos(s, k);
    if j < i {
        assert(s[j].0.0 < s[i].0.0);
    } else if j > i {
        assert(s[i].0.0 < s[j].0.0);
    }
}

/// An ordered map from commodity handles to values.
#[derive(Debug)]
pub struct CommodityMap<V> {
    entries: Vec<(CommodityId, V)>,
}

impl<V> View for CommodityMap<V> {
    type V = Map<CommodityId, V>;

    open spec fn view(&self) -> Map<CommodityId, V> {
        seq_to_map(self.spec_entries())
    }
}

impl<V> CommodityMap<V> {
    /// The entries in ascending key order.
    pub closed spec fn spec_entries(&self) -> Seq<(CommodityId, V)> {
        self.entries@
    }

    /// Keys stay strictly increasing (callers learn it with `use_type_invariant`).
    #[verifier::type_invariant]
    pub closed spec fn keys_sorted(self) -> bool {
        sorted_keys(self.entries@)
    }

    /// The entries are sorted, and each entry is in the map.
    pub proof fn lemma_entries(&self)
        requires
            self.keys_sorted(),
        ensures
            sorted_keys(self.spec_entries()),
            forall|i: int|
                0 <= i < self.spec_entries().len() ==> self@.contains_key(
                    (#[trigger] self.spec_entries()[i]).0,
                ) && self@[self.spec_entries()[i].0] == self.spec_entries()[i].1
                    && key_pos(self.spec_entries(), self.spec_entries()[i].0) == i,
            forall|k: CommodityId|
                #[trigger] self@.contains_key(k) ==> 0 <= key_pos(self.spec_entries(), k) < self.spec_entries().len()
                    && self.spec_entries()[key_pos(self.spec_entries(), k)].0 == k,
    {
        assert forall|i: int| 0 <= i < self.spec_entries().len() implies self@.contains_key(
            (#[trigger] self.spec_entries()[i]).0,
        ) && self@[self.spec_entries()[i].0] == self.spec_entries()[i].1
            && key_pos(self.spec_entries(), self.spec_entries()[i].0) == i by {
            lemma_key_pos(self.spec_entries(), i);
        }
    }

    /// An empty map.
    pub fn new() -> (r: Self)
        ensures
            r@ == Map::<CommodityId, V>::empty(),
            r.spec_entries().len() == 0,
    {
        let r = CommodityMap { entries: Vec::new() };
        assert(r@ =~= Map::<CommodityId, V>::empty());
        r
    }

    /// Number of entries.
    pub fn len(&self) -> (r: usize)
        ensures
            r == self.spec_entries().len(),
    {
        self.entries.len()
    }

    /// Whether the map holds no entry.
    pub fn is_empty(&self) -> (r: bool)
        ensures
            r == (self.spec_entries().len() == 0),
            r == (self@ == Map::<CommodityId, V>::empty()),
    {
        proof {
            use_type_invariant(self);
            if self.spec_entries().len() != 0 {
                self.lemma_entries();
                assert(self@.contains_key(self.spec_entries()[0].0));
            } else {
                assert(self@ =~= Map::<CommodityId, V>::empty());
            }
        }
        self.entries.len() == 0
    }

    /// The key of the `i`-th entry in ascending order.
    pub fn key_at(&self, i: usize) -> (r: CommodityId)
        requires
            i < self.spec_entries().len(),
        ensures
            r == self.spec_entries()[i as int].0,
    {
        self.entries[i].0
    }

    /// The value of the `i`-th entry in ascending order.
    pub fn value_at(&self, i: usize) -> (r: &V)
        requires
            i < self.spec_entries().len(),
        ensures
            *r == self.spec_entries()[i as int].1,
    {
        &self.entries[i].1
    }

    /// Position of `k`, or `None` if absent.
    pub fn find(&self, k: CommodityId) -> (r: Option<usize>)
        ensures
            r is None <==> !self@.contains_key(k),
            r matches Some(i) ==> i < self.spec_entries().len() && self.spec_entries()[i as int].0 == k,
    {
        proof {
            use_type_invariant(self);
            self.lemma_entries();
        }
        let n = self.entries.len();
        let mut i: usize = 0;
        while i < n
            invariant
                n == self.spec_entries().len(),
                i <= n,
                forall|j: int| 0 <= j < i ==> (#[trigger] self.spec_entries()[j]).0 != k,
            decreases n - i,
        {
            if self.entries[i].0.0 == k.0 {
                return Some(i);
            }
            i = i + 1;
        }
        None
    }

    /// Whether `k` has an entry.
    pub fn contains_key(&self, k: CommodityId) -> (r: bool)
        ensures
            r == self@.contains_key(k),
    {
        self.find(k).is_some()
    }

    /// The value stored for `k`.
    pub fn get(&self, k: CommodityId) -> (r: Option<&V>)
        ensures
            r is None <==> !self@.contains_key(k),
            r matches Some(v) ==> *v == self@[k],
    {
        match self.find(k) {
            Some(i) => {
                proof {
                    use_type_invariant(self);
                    self.lemma_entries();
                }
                Some(&self.entries[i].1)
            },
            None => None,
        }
    }

    /// Store `v` for `k`, replacing any previous value.
    pub fn insert(&mut self, k: CommodityId, v: V)
        ensures
            final(self)@ == old(self)@.insert(k, v),
    {
        proof {
            use_type_invariant(&*self);
        }
        let mut entries: Vec<(CommodityId, V)> = Vec::new();
        std::mem::swap(&mut entries, &mut self.entries);
        let ghost old_s = entries@;
        let n = entries.len();
        let mut i: usize = 0;
        while i < n && entries[i].0.0 < k.0
            invariant
                n == entries@.len(),
                entries@ == old_s,
                sorted_keys(old_s),
                i <= n,
                forall|j: int| 0 <= j < i ==> (#[trigger] old_s[j]).0.0 < k.0,
            decreases n - i,
        {
            i = i + 1;
        }
        // Every entry before `i` has a smaller key; the one at `i`, if any, a key >= k.
        if i < n && entries[i].0.0 == k.0 {
            entries.set(i, (k, v));
            let ghost s = entries@;
            proof {
                assert(s == old_s.update(i as int, (k, v)));
                assert(sorted_keys(s)) by {
                    assert forall|a: int, b: int| 0 <= a < b < s.len() implies (#[trigger] s[a]).0.0
                        < (#[trigger] s[b]).0.0 by {
                        assert(old_s[a].0.0 < old_s[b].0.0);
                    }
                }
                assert forall|key: CommodityId| (seq_has_key(s, key) == (seq_has_key(old_s, key) || key == k)) by {
                    if seq_has_key(old_s, key) {
                        let j = choose|j: int| 0 <= j < old_s.len() && (#[trigger] old_s[j]).0 == key;
                        assert(s[j].0 == key);
                    }
                    if seq_has_key(s, key) {
                        let j = choose|j: int| 0 <= j < s.len() && (#[trigger] s[j]).0 == key;
                        if j != i {
                            assert(old_s[j].0 == key);
                        }
                    }
                    if key == k {
                        assert(s[i as int].0 == key);
                    }
                }
                assert forall|key: CommodityId| seq_has_key(s, key) implies #[trigger] seq_to_map(s)[key]
                    == old(self)@.insert(k, v)[key] by {
                    let j = choose|j: int| 0 <= j < s.len() && (#[trigger] s[j]).0 == key;
                    lemma_key_pos(s, j);
                    if j != i {
                        assert(old_s[j] == s[j]);
                        lemma_key_pos(old_s, j);
                    }
                }
                assert(seq_to_map(s) =~= old(self)@.insert(k, v));
            }
        } else {
            entries.insert(i, (k, v));
            let ghost s = entries@;
            proof {
                assert(s == old_s.insert(i as int, (k, v)));
                assert(sorted_keys(s)) by {
                    assert forall|a: int, b: int| 0 <= a < b < s.len() implies (#[trigger] s[a]).0.0
                        < (#[trigger] s[b]).0.0 by {
                        if b < i {
                            assert(old_s[a].0.0 < old_s[b].0.0);
                        } else if b == i {
                            assert(old_s[a].0.0 < k.0);
                        } else if a < i {
                            assert(old_s[b - 1].0.0 >= k.0);
                            assert(old_s[a].0.0 < k.0);
                        } else if a == i {
                            assert(old_s[i as int].0.0 >= k.0);
                            assert(old_s[i as int].0.0 != k.0);
                            if b - 1 > i {
                                assert(old_s[i as int].0.0 < old_s[b - 1].0.0);
                            }
                        } else {
                            assert(old_s[a - 1].0.0 < old_s[b - 1].0.0);
                        }
                    }
                }
                assert forall|key: CommodityId| (seq_has_key(s, key) == (seq_has_key(old_s, key) || key == k)) by {
                    if seq_has_key(old_s, key) {
                        let j = choose|j: int| 0 <= j < old_s.len() && (#[trigger] old_s[j]).0 == key;
                        if j < i {
                            assert(s[j].0 == key);
                        } else {
                            assert(s[j + 1].0 == key);
                        }
                    }
                    if seq_has_key(s, key) {
                        let j = choose|j: int| 0 <= j < s.len() && (#[trigger] s[j]).0 == key;
                        if j < i {
                            assert(old_s[j].0 == key);
                        } else if j > i {
                            assert(old_s[j - 1].0 == key);
                        }
                    }
                    if key == k {
                        assert(s[i as int].0 == key);
                    }
                }
                assert forall|key: CommodityId| seq_has_key(s, key) implies #[trigger] seq_to_map(s)[key]
                    == old(self)@.insert(k, v)[key] by {
                    let j = choose|j: int| 0 <= j < s.len() && (#[trigger] s[j]).0 == key;
                    lemma_key_pos(s, j);
                    if j < i {
                        assert(old_s[j] == s[j]);
                        lemma_key_pos(old_s, j);
                    } else if j > i {
                        assert(old_s[j - 1] == s[j]);
                        lemma_key_pos(old_s, j - 1);
                    }
                }
                assert(seq_to_map(s) =~= old(self)@.insert(k, v));
            }
        }
        self.entries = entries;
    }

    /// Remove the entry for `k`, returning its value.
    pub fn remove(&mut self, k: CommodityId) -> (r: Option<V>)
        ensures
            final(self)@ == old(self)@.remove(k),
            r is None <==> !old(self)@.contains_key(k),
            r matches Some(v) ==> v == old(self)@[k],
    {
        proof {
            use_type_invariant(&*self);
        }
        match self.find(k) {
            None => {
                assert(old(self)@.remove(k) =~= old(self)@);
                None
            },
            Some(i) => {
                let mut entries: Vec<(CommodityId, V)> = Vec::new();
                std::mem::swap(&mut entries, &mut self.entries);
                let ghost old_s = entries@;
                let (_, val) = entries.remove(i);
                let ghost s = entries@;
                proof {
                    lemma_key_pos(old_s, i as int);
                    assert(s == old_s.remove(i as int));
                    assert(sorted_keys(s)) by {
                        assert forall|a: int, b: int| 0 <= a < b < s.len() implies (#[trigger] s[a]).0.0
                            < (#[trigger] s[b]).0.0 by {
                            if b < i {
                                assert(old_s[a].0.0 < old_s[b].0.0);
                            } else if a < i {
                                assert(old_s[a].0.0 < old_s[b + 1].0.0);
                            } else {
                                assert(old_s[a + 1].0.0 < old_s[b + 1].0.0);
                            }
                        }
                    }
                    assert forall|key: CommodityId| (seq_has_key(s, key) == (seq_has_key(old_s, key) && key != k)) by {
                        if seq_has_key(old_s, key) && key != k {
                            let j = choose|j: int| 0 <= j < old_s.len() && (#[trigger] old_s[j]).0 == key;
                            if j < i {
                                assert(s[j].0 == key);
                            } else {
                                assert(j != i);
                                assert(s[j - 1].0 == key);
                            }
                        }
                        if seq_has_key(s, key) {
                            let j = choose|j: int| 0 <= j < s.len() && (#[trigger] s[j]).0 == key;
                            if j < i {
                                assert(old_s[j].0 == key);
                                assert(old_s[j].0.0 < old_s[i as int].0.0);
                            } else {
                                assert(old_s[j + 1].0 == key);
                                assert(old_s[i as int].0.0 < old_s[j + 1].0.0);
                            }
                        }
                    }
                    assert forall|key: CommodityId| seq_has_key(s, key) implies #[trigger] seq_to_map(s)[key]
                        == old(self)@.remove(k)[key] by {
                        let j = choose|j: int| 0 <= j < s.len() && (#[trigger] s[j]).0 == key;
                        lemma_key_pos(s, j);
                        if j < i {
                            lemma_key_pos(old_s, j);
                        } else {
                            lemma_key_pos(old_s, j + 1);
                        }
                    }
                    assert(seq_to_map(s) =~= old(self)@.remove(k));
                }
                self.entries = entries;
                Some(val)
            },
        }
    }

    /// Remove every entry.
    pub fn clear(&mut self)
        ensures
            final(self)@ == Map::<CommodityId, V>::empty(),
            final(self).spec_entries().len() == 0,
    {
        self.entries = Vec::new();
        assert(self@ =~= Map::<CommodityId, V>::empty());
    }
}

} // verus!

verus! {

/// The sorted entry sequence that denotes `m` (unique when it exists).
pub open spec fn sorted_entries<V>(m: Map<CommodityId, V>) -> Seq<(CommodityId, V)> {
    choose|s: Seq<(CommodityId, V)>| sorted_keys(s) && seq_to_map(s) == m
}

/// Dropping the last (largest) entry removes its key from the denoted map.
pub proof fn lemma_drop_last_map<V>(s: Seq<(CommodityId, V)>)
    requires
        sorted_keys(s),
        s.len() > 0,
    ensures
        seq_to_map(s.drop_last()) == seq_to_map(s).remove(s.last().0),
        sorted_keys(s.drop_last()),
{
    let d = s.drop_last();
    let k = s.last().0;
    assert(sorted_keys(d)) by {
        assert forall|a: int, b: int| 0 <= a < b < d.len() implies (#[trigger] d[a]).0.0 < (#[trigger] d[b]).0.0 by {
            assert(s[a].0.0 < s[b].0.0);
        }
    }
    assert forall|key: CommodityId| seq_has_key(d, key) == (seq_has_key(s, key) && key != k) by {
        if seq_has_key(d, key) {
            let j = choose|j: int| 0 <= j < d.len() && (#[trigger] d[j]).0 == key;
            assert(s[j].0 == key);
            assert(s[j].0.0 < s[s.len() - 1].0.0);
        }
        if seq_has_key(s, key) && key != k {
            let j = choose|j: int| 0 <= j < s.len() && (#[trigger] s[j]).0 == key;
            assert(j != s.len() - 1);
            assert(d[j].0 == key);
        }
    }
    assert forall|key: CommodityId| seq_has_key(d, key) implies #[trigger] seq_to_map(d)[key] == seq_to_map(s)[key] by {
        let j = choose|j: int| 0 <= j < d.len() && (#[trigger] d[j]).0 == key;
        lemma_key_pos(d, j);
        assert(d[j] == s[j]);
        lemma_key_pos(s, j);
    }
    assert(seq_to_map(d) =~= seq_to_map(s).remove(k));
}

/// A map has at most one sorted entry sequence.
pub proof fn lemma_sorted_unique<V>(s1: Seq<(CommodityId, V)>, s2: Seq<(CommodityId, V)>)
    requires
        sorted_keys(s1),
        sorted_keys(s2),
        seq_to_map(s1) == seq_to_map(s2),
    ensures
        s1 == s2,
    decreases s1.len(),
{
    if s1.len() == 0 {
        if s2.len() > 0 {
            lemma_key_pos(s2, 0);
            assert(seq_to_map(s2).contains_key(s2[0].0));
        }
        assert(s1 =~= s2);
    } else {
        if s2.len() == 0 {
            lemma_key_pos(s1, 0);
            assert(seq_to_map(s1).contains_key(s1[0].0));
        }
        let n1 = s1.len() - 1;
        let n2 = s2.len() - 1;
        lemma_key_pos(s1, n1);
        lemma_key_pos(s2, n2);
        let k1 = s1[n1].0;
        let k2 = s2[n2].0;
        // k1 is in s2, so k1 <= k2; symmetrically k2 <= k1.
        let j2 = key_pos(s2, k1);
        assert(seq_to_map(s2).contains_key(k1));
        if j2 < n2 {
            assert(s2[j2].0.0 < s2[n2].0.0);
        }
        let j1 = key_pos(s1, k2);
        assert(seq_to_map(s1).contains_key(k2));
        if j1 < n1 {
            assert(s1[j1].0.0 < s1[n1].0.0);
        }
        assert(k1 == k2);
        lemma_drop_last_map(s1);
        lemma_drop_last_map(s2);
        lemma_sorted_unique(s1.drop_last(), s2.drop_last());
        assert(s1 =~= s1.drop_last().push(s1.last()));
        assert(s2 =~= s2.drop_last().push(s2.last()));
    }
}

impl<V> CommodityMap<V> {
    /// The entries of a map are its unique sorted entry sequence.
    pub proof fn lemma_sorted_entries(&self)
        requires
            self.keys_sorted(),
        ensures
            sorted_entries(self@) == self.spec_entries(),
    {
        self.lemma_entries();
        let s = sorted_entries(self@);
        assert(sorted_keys(self.spec_entries()) && seq_to_map(self.spec_entries()) == self@);
        lemma_sorted_unique(s, self.spec_entries());
    }
}

} // verus!

verus! {

impl<V> CommodityMap<V> {
    /// Replace the value of the `i`-th entry, keeping its key.
    pub fn set_value_at(&mut self, i: usize, v: V)
        requires
            i < old(self).spec_entries().len(),
        ensures
            final(self).spec_entries() == old(self).spec_entries().update(i as int, (old(self).spec_entries()[i as int].0, v)),
            final(self)@ == old(self)@.insert(old(self).spec_entries()[i as int].0, v),
    {
        proof {
            use_type_invariant(&*self);
        }
        let mut entries: Vec<(CommodityId, V)> = Vec::new();
        std::mem::swap(&mut entries, &mut self.entries);
        let ghost old_s = entries@;
        let k = entries[i].0;
        entries.set(i, (k, v));
        let ghost s = entries@;
        proof {
            assert(sorted_keys(s)) by {
                assert forall|a: int, b: int| 0 <= a < b < s.len() implies (#[trigger] s[a]).0.0 < (#[trigger] s[b]).0.0 by {
                    assert(old_s[a].0.0 < old_s[b].0.0);
                }
            }
            assert forall|key: CommodityId| (seq_has_key(s, key) == seq_has_key(old_s, key)) by {
                if seq_has_key(old_s, key) {
                    let j = choose|j: int| 0 <= j < old_s.len() && (#[trigger] old_s[j]).0 == key;
                    assert(s[j].0 == key);
                }
                if seq_has_key(s, key) {
                    let j = choose|j: int| 0 <= j < s.len() && (#[trigger] s[j]).0 == key;
                    assert(old_s[j].0 == key);
                }
            }
            lemma_key_pos(old_s, i as int);
            assert forall|key: CommodityId| seq_has_key(s, key) implies #[trigger] seq_to_map(s)[key]
                == seq_to_map(old_s).insert(k, v)[key] by {
                let j = choose|j: int| 0 <= j < s.len() && (#[trigger] s[j]).0 == key;
                lemma_key_pos(s, j);
                if j != i {
                    lemma_key_pos(old_s, j);
                }
            }
            assert(seq_to_map(s) =~= seq_to_map(old_s).insert(k, v));
        }
        self.entries = entries;
    }
}

} // verus!
