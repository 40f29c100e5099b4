//! The name-keyed plugin seam: behaviour that content refers to by name
//! (e.g. `pricing: "supply_demand_v1"`) is resolved through a registry of
//! built-in handlers, so a typo in content is a lookup miss rather than a
//! silent default.

use vstd::prelude::*;

use crate::ids::distinct;

verus! {

/// A name that no handler is registered under.
#[derive(Debug, Clone, PartialEq, Eq)]
pub struct UnknownStrategy(pub String);

/// A table of handlers keyed by name; each name occurs at most once.
#[derive(Debug)]
pub struct NamedRegistry<T> {
    entries: Vec<(String, T)>,
}

/// The names of an entry sequence.
pub open spec fn entry_names<T>(s: Seq<(String, T)>) -> Seq<Seq<char>> {
    s.map_values(|e: (String, T)| e.0@)
}

/// The handler registered under `name` in `s` (meaningful when the name occurs).
pub open spec fn name_pos<T>(s: Seq<(String, T)>, name: Seq<char>) -> int {
    choose|i: int| 0 <= i < s.len() && (#[trigger] s[i]).0@ == name
}

impl<T> View for NamedRegistry<T> {
    type V = Map<Seq<char>, T>;

    /// Registered handlers by name.
    open spec fn view(&self) -> Map<Seq<char>, T> {
        let s = self.spec_entries();
        Map::new(
            |n: Seq<char>| entry_names(s).contains(n),
            |n: Seq<char>| s[name_pos(s, n)].1,
        )
    }
}

impl<T> NamedRegistry<T> {
    /// The registered entries in registration order.
    pub closed spec fn spec_entries(&self) -> Seq<(String, T)> {
        self.entries@
    }

    /// No name is registered twice.
    #[verifier::type_invariant]
    pub closed spec fn names_unique(self) -> bool {
        distinct(entry_names(self.entries@))
    }

    /// An empty registry.
    pub fn new() -> (r: Self)
        ensures
            r@ == Map::<Seq<char>, T>::empty(),
            r.spec_entries().len() == 0,
    {
        let r = NamedRegistry { entries: Vec::new() };
        assert(r@ =~= Map::<Seq<char>, T>::empty());
        r
    }

    /// Position of the entry named `key`.
    fn position(&self, key: &String) -> (r: Option<usize>)
        ensures
            r is None <==> !entry_names(self.spec_entries()).contains(key@),
            r matches Some(i) ==> i < self.spec_entries().len() && self.spec_entries()[i as int].0@ == key@,
    {
        let n = self.entries.len();
        let mut i: usize = 0;
        while i < n
            invariant
                n == self.entries@.len(),
                i <= n,
                forall|j: int| 0 <= j < i ==> (#[trigger] self.entries@[j]).0@ != key@,
            decreases n - i,
        {
            if self.entries[i].0 == *key {
                assert(entry_names(self.entries@)[i as int] == key@);
                return Some(i);
            }
            i = i + 1;
        }
        proof {
            if entry_names(self.entries@).contains(key@) {
                let k = choose|k: int| 0 <= k < entry_names(self.entries@).len() && entry_names(self.entries@)[k] == key@;
                assert(self.entries@[k].0@ == key@);
            }
        }
        None
    }

    /// In a registry the chosen position of a present name is its unique index.
    proof fn lemma_pos(&self, i: int)
        requires
            self.names_unique(),
            0 <= i < self.spec_entries().len(),
        ensures
            name_pos(self.spec_entries(), self.spec_entries()[i].0@) == i,
            entry_names(self.spec_entries()).contains(self.spec_entries()[i].0@),
    {
        let s = self.spec_entries();
        assert(s[i].0@ == s[i].0@);
        let j = name_pos(s, s[i].0@);
        assert(entry_names(s)[i] == s[i].0@);
        if j != i {
            assert(entry_names(s)[j] == entry_names(s)[i]);
        }
    }

    /// Register `value` under `name`, replacing a handler of the same name.
    pub fn register(&mut self, name: &str, value: T)
        ensures
            final(self)@ == old(self)@.insert(name@, value),
            old(self)@.contains_key(name@) ==> final(self).spec_entries().len() == old(self).spec_entries().len(),
            !old(self)@.contains_key(name@) ==> final(self).spec_entries().len() == old(self).spec_entries().len() + 1
                && final(self).spec_entries().last().0@ == name@
                && forall|i: int| 0 <= i < old(self).spec_entries().len() ==> #[trigger] final(self).spec_entries()[i] == old(self).spec_entries()[i],
    {
        proof {
            use_type_invariant(&*self);
        }
        let key = name.to_owned();
        let mut entries: Vec<(String, T)> = Vec::new();
        std::mem::swap(&mut entries, &mut self.entries);
        let ghost old_s = entries@;
        let tmp = NamedRegistry { entries };
        let pos = tmp.position(&key);
        let mut entries = tmp.entries;
        match pos {
            Some(i) => {
                entries.set(i, (key, value));
                let ghost s = entries@;
                proof {
                    assert(entry_names(s) =~= entry_names(old_s).update(i as int, name@));
                    assert(entry_names(s) =~= entry_names(old_s));
                    assert(old_s == old(self).spec_entries());
                    let reg = NamedRegistry { entries: entries };
                    assert(reg.names_unique());
                    assert forall|n: Seq<char>| entry_names(s).contains(n) implies #[trigger] reg@[n]
                        == old(self)@.insert(name@, value)[n] by {
                        let j = choose|j: int| 0 <= j < entry_names(s).len() && entry_names(s)[j] == n;
                        reg.lemma_pos(j);
                        if j != i {
                            assert(entry_names(s)[i as int] == name@);
                            assert(n != name@);
                            assert(s[j] == old_s[j]);
                            old(self).lemma_pos(j);
                        }
                    }
                    assert(reg@ =~= old(self)@.insert(name@, value));
                }
            },
            None => {
                entries.push((key, value));
                let ghost s = entries@;
                proof {
                    assert(entry_names(s) =~= entry_names(old_s).push(name@));
                    assert(old_s == old(self).spec_entries());
                    let reg = NamedRegistry { entries: entries };
                    assert(reg.names_unique()) by {
                        let e = entry_names(s);
                        assert forall|a: int, b: int| 0 <= a < e.len() && 0 <= b < e.len() && a != b
                            implies e[a] != e[b] by {
                            if a < old_s.len() && b < old_s.len() {
                                assert(entry_names(old_s)[a] == e[a]);
                                assert(entry_names(old_s)[b] == e[b]);
                            } else if a == old_s.len() {
                                assert(entry_names(old_s)[b] == e[b]);
                            } else {
                                assert(entry_names(old_s)[a] == e[a]);
                            }
                        }
                    }
                    assert forall|n: Seq<char>| entry_names(s).contains(n) implies #[trigger] reg@[n]
                        == old(self)@.insert(name@, value)[n] by {
                        let j = choose|j: int| 0 <= j < entry_names(s).len() && entry_names(s)[j] == n;
                        reg.lemma_pos(j);
                        if j != old_s.len() {
                            assert(s[j] == old_s[j]);
                            assert(entry_names(old_s)[j] == n);
                            old(self).lemma_pos(j);
                        }
                    }
                    assert forall|n: Seq<char>| #[trigger] entry_names(s).contains(n) == (entry_names(old_s).contains(n) || n == name@) by {
                        if entry_names(old_s).contains(n) {
                            let j = choose|j: int| 0 <= j < entry_names(old_s).len() && entry_names(old_s)[j] == n;
                            assert(entry_names(s)[j] == n);
                        }
                        if n == name@ {
                            assert(entry_names(s)[old_s.len() as int] == n);
                        }
                    }
                    assert(reg@ =~= old(self)@.insert(name@, value));
                }
            },
        }
        self.entries = entries;
    }

    /// Whether a handler is registered under `name`.
    pub fn contains(&self, name: &str) -> (r: bool)
        ensures
            r == self@.contains_key(name@),
    {
        let key = name.to_owned();
        self.position(&key).is_some()
    }

    /// The handler registered under `name`, or the unknown name back.
    pub fn resolve(&self, name: &str) -> (r: Result<&T, UnknownStrategy>)
        ensures
            r is Ok <==> self@.contains_key(name@),
            r matches Ok(v) ==> *v == self@[name@],
            r matches Err(e) ==> e.0@ == name@,
    {
        let key = name.to_owned();
        match self.position(&key) {
            Some(i) => {
                proof {
                    use_type_invariant(self);
                    self.lemma_pos(i as int);
                }
                Ok(&self.entries[i].1)
            },
            None => Err(UnknownStrategy(key)),
        }
    }

    /// The registered names, in registration order.
    pub fn names(&self) -> (r: Vec<&str>)
        ensures
            r@.len() == self.spec_entries().len(),
            forall|i: int| 0 <= i < r@.len() ==> (#[trigger] r@[i])@ == self.spec_entries()[i].0@,
            forall|n: Seq<char>| self@.contains_key(n) <==> exists|i: int| 0 <= i < r@.len() && (#[trigger] r@[i])@ == n,
    {
        let n = self.entries.len();
        let mut out: Vec<&str> = Vec::new();
        let mut i: usize = 0;
        while i < n
            invariant
                n == self.entries@.len(),
                i <= n,
                out@.len() == i,
                forall|j: int| 0 <= j < i ==> (#[trigger] out@[j])@ == self.entries@[j].0@,
            decreases n - i,
        {
            out.push(self.entries[i].0.as_str());
            i = i + 1;
        }
        proof {
            assert forall|nm: Seq<char>| self@.contains_key(nm) implies exists|i: int| 0 <= i < out@.len() && (#[trigger] out@[i])@ == nm by {
                let j = choose|j: int| 0 <= j < entry_names(self.entries@).len() && entry_names(self.entries@)[j] == nm;
                assert(out@[j]@ == nm);
            }
            assert forall|nm: Seq<char>| (exists|i: int| 0 <= i < out@.len() && (#[trigger] out@[i])@ == nm) implies self@.contains_key(nm) by {
                let j = choose|j: int| 0 <= j < out@.len() && (#[trigger] out@[j])@ == nm;
                assert(entry_names(self.entries@)[j] == nm);
            }
        }
        out
    }
}

} // verus!
