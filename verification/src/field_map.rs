//! Fields by name, kept in the order of their names, each name once: the
//! shape of a `BTreeMap` keyed by identifiers, whose order is that of the
//! identifiers' text.
//!
//! The map is a sorted vector rather than a `std::collections::BTreeMap`:
//! vstd specifies `BTreeMap` only for key types that obey its model of `Ord`
//! (`key_obeys_cmp_spec`, that is `laws_cmp::obeys_cmp`), and it gives that
//! law for integers, references, `Option` and tuples of them, not for `String`. With
//! names as keys its `insert` and `get` would promise nothing, so the order
//! of names is stated here ([`crate::order`]) and kept by every operation.

use vstd::prelude::*;
use crate::order::{compare_names, lemma_name_lt_transitive, lemma_name_order, name_lt, NameOrder};

verus! {

/// Entries `(name, value)`, names strictly increasing.
pub open spec fn sorted_names<T>(e: Seq<(Seq<char>, T)>) -> bool {
    forall|i: int, j: int| 0 <= i < j < e.len() ==> name_lt(#[trigger] e[i].0, #[trigger] e[j].0)
}

/// A position of an entry named `k`.
pub open spec fn index_of<T>(e: Seq<(Seq<char>, T)>, k: Seq<char>) -> int {
    choose|i: int| 0 <= i < e.len() && e[i].0 == k
}

/// The map that a list of entries with distinct names stands for.
pub open spec fn map_of<T>(e: Seq<(Seq<char>, T)>) -> Map<Seq<char>, T> {
    Map::new(
        |k: Seq<char>| exists|i: int| 0 <= i < e.len() && e[i].0 == k,
        |k: Seq<char>| e[index_of(e, k)].1,
    )
}

/// In a sorted list, the entry at `i` gives its name's value.
pub proof fn lemma_map_of_index<T>(e: Seq<(Seq<char>, T)>, i: int)
    requires
        sorted_names(e),
        0 <= i < e.len(),
    ensures
        map_of(e).contains_key(e[i].0),
        map_of(e)[e[i].0] == e[i].1,
{
    let k = e[i].0;
    assert(exists|j: int| 0 <= j < e.len() && e[j].0 == k);
    let j = index_of(e, k);
    if j != i {
        lemma_name_order(k, k);
        if j < i {
            assert(name_lt(e[j].0, e[i].0));
        } else {
            assert(name_lt(e[i].0, e[j].0));
        }
    }
}

/// The map of a sorted list holds exactly the names of its entries.
pub proof fn lemma_map_of_keys<T>(e: Seq<(Seq<char>, T)>, k: Seq<char>)
    requires
        sorted_names(e),
    ensures
        map_of(e).contains_key(k) <==> exists|i: int| 0 <= i < e.len() && e[i].0 == k,
{
}

/// Fields by name, in the order of their names.
pub struct FieldMap<T> {
    entries: Vec<(String, T)>,
}

pub open spec fn entry_views<T>(e: Seq<(String, T)>) -> Seq<(Seq<char>, T)> {
    e.map_values(|p: (String, T)| (p.0@, p.1))
}

impl<T> View for FieldMap<T> {
    type V = Seq<(Seq<char>, T)>;

    closed spec fn view(&self) -> Seq<(Seq<char>, T)> {
        entry_views(self.entries@)
    }
}

impl<T> FieldMap<T> {
    #[verifier::type_invariant]
    spec fn inv(self) -> bool {
        sorted_names(entry_views(self.entries@))
    }

    /// The map the entries stand for.
    pub open spec fn map(self) -> Map<Seq<char>, T> {
        map_of(self@)
    }

    /// An empty map.
    pub fn new() -> (r: FieldMap<T>)
        ensures
            r@ == Seq::<(Seq<char>, T)>::empty(),
            r.map() == Map::<Seq<char>, T>::empty(),
    {
        let r = FieldMap { entries: Vec::new() };
        assert(entry_views(r.entries@) =~= Seq::<(Seq<char>, T)>::empty());
        assert(map_of(r@) =~= Map::<Seq<char>, T>::empty());
        r
    }

    /// The number of fields.
    pub fn len(&self) -> (r: usize)
        ensures
            r == self@.len(),
    {
        self.entries.len()
    }

    /// The entries, in the order of their names.
    pub fn entries(&self) -> (r: &Vec<(String, T)>)
        ensures
            entry_views(r@) == self@,
            sorted_names(self@),
    {
        proof {
            use_type_invariant(self);
        }
        &self.entries
    }

    /// Where `key` stands (`Ok`), or where it would be inserted (`Err`).
    fn find(&self, key: &String) -> (r: Result<usize, usize>)
        ensures
            match r {
                Ok(i) => i < self@.len() && self@[i as int].0 == key@,
                Err(i) => i <= self@.len()
                    && (forall|j: int| 0 <= j < i ==> name_lt(#[trigger] self@[j].0, key@))
                    && (forall|j: int| i <= j < self@.len() ==> name_lt(key@, #[trigger] self@[j].0)),
            },
    {
        proof {
            use_type_invariant(self);
        }
        let ghost e = self@;
        let mut i: usize = 0;
        while i < self.entries.len()
            invariant
                e == self@,
                e == entry_views(self.entries@),
                sorted_names(e),
                i <= e.len(),
                forall|j: int| 0 <= j < i ==> name_lt(#[trigger] e[j].0, key@),
            decreases self.entries.len() - i,
        {
            let ghost name = e[i as int].0;
            assert(self.entries@[i as int].0@ == name);
            match compare_names(&self.entries[i].0, key) {
                NameOrder::Before => {},
                NameOrder::Same => return Ok(i),
                NameOrder::After => {
                    assert forall|j: int| i <= j < e.len() implies name_lt(key@, #[trigger] e[j].0) by {
                        if j > i {
                            assert(name_lt(e[i as int].0, e[j].0));
                            lemma_name_lt_transitive(key@, e[i as int].0, e[j].0);
                        }
                    }
                    return Err(i);
                },
            }
            i += 1;
        }
        Err(i)
    }

    /// Sets the value of `key`, adding the key where it is missing.
    pub fn insert(&mut self, key: String, value: T)
        ensures
            final(self).map() == old(self).map().insert(key@, value),
            sorted_names(final(self)@),
    {
        proof {
            use_type_invariant(&*self);
        }
        let ghost old_e = self@;
        let ghost k = key@;
        let found = self.find(&key);
        let mut entries: Vec<(String, T)> = Vec::new();
        std::mem::swap(&mut entries, &mut self.entries);
        assert(entry_views(entries@) == old_e);
        match found {
            Ok(i) => {
                entries.remove(i);
                entries.insert(i, (key, value));
                let ghost new_e = old_e.update(i as int, (k, value));
                assert(entry_views(entries@) =~= new_e);
                proof {
                    assert(sorted_names(new_e));
                    assert forall|n: Seq<char>| #![auto] map_of(new_e).contains_key(n) <==> map_of(old_e).insert(k, value).contains_key(n) by {
                        if n != k && map_of(old_e).contains_key(n) {
                            let j = choose|j: int| 0 <= j < old_e.len() && old_e[j].0 == n;
                            assert(new_e[j].0 == n);
                        }
                        if map_of(new_e).contains_key(n) {
                            let j = choose|j: int| 0 <= j < new_e.len() && new_e[j].0 == n;
                            if j != i {
                                assert(old_e[j].0 == n);
                            }
                        }
                        lemma_map_of_index(new_e, i as int);
                    }
                    assert forall|n: Seq<char>| #![auto] map_of(new_e).contains_key(n) implies map_of(new_e)[n] == map_of(old_e).insert(k, value)[n] by {
                        let j = choose|j: int| 0 <= j < new_e.len() && new_e[j].0 == n;
                        lemma_map_of_index(new_e, j);
                        if j != i {
                            lemma_map_of_index(old_e, j);
                            assert(old_e[j].0 == n);
                            lemma_name_order(n, n);
                            if j < i {
                                assert(name_lt(old_e[j].0, old_e[i as int].0));
                            } else {
                                assert(name_lt(old_e[i as int].0, old_e[j].0));
                            }
                        }
                    }
                    assert(map_of(new_e) =~= map_of(old_e).insert(k, value));
                }
            },
            Err(i) => {
                entries.insert(i, (key, value));
                let ghost new_e = old_e.insert(i as int, (k, value));
                assert(entry_views(entries@) =~= new_e);
                proof {
                    assert forall|a: int, b: int| 0 <= a < b < new_e.len() implies name_lt(#[trigger] new_e[a].0, #[trigger] new_e[b].0) by {
                        if a < i && b == i {
                        } else if a < i && b > i {
                            assert(new_e[b].0 == old_e[b - 1].0);
                            lemma_name_lt_transitive(new_e[a].0, k, new_e[b].0);
                        } else if a == i {
                            assert(new_e[b].0 == old_e[b - 1].0);
                        } else if a > i {
                            assert(new_e[a].0 == old_e[a - 1].0);
                            assert(new_e[b].0 == old_e[b - 1].0);
                        }
                    }
                    assert forall|n: Seq<char>| #![auto] map_of(new_e).contains_key(n) <==> map_of(old_e).insert(k, value).contains_key(n) by {
                        if n != k && map_of(old_e).contains_key(n) {
                            let j = choose|j: int| 0 <= j < old_e.len() && old_e[j].0 == n;
                            if j < i {
                                assert(new_e[j].0 == n);
                            } else {
                                assert(new_e[j + 1].0 == n);
                            }
                        }
                        if n == k {
                            assert(new_e[i as int].0 == n);
                        }
                        if map_of(new_e).contains_key(n) {
                            let j = choose|j: int| 0 <= j < new_e.len() && new_e[j].0 == n;
                            if j < i {
                                assert(old_e[j].0 == n);
                            } else if j > i {
                                assert(old_e[j - 1].0 == n);
                            }
                        }
                    }
                    assert forall|n: Seq<char>| #![auto] map_of(new_e).contains_key(n) implies map_of(new_e)[n] == map_of(old_e).insert(k, value)[n] by {
                        let j = choose|j: int| 0 <= j < new_e.len() && new_e[j].0 == n;
                        lemma_map_of_index(new_e, j);
                        if j < i {
                            lemma_map_of_index(old_e, j);
                            assert(old_e[j].0 == n);
                            lemma_name_order(n, k);
                        } else if j > i {
                            lemma_map_of_index(old_e, j - 1);
                            assert(old_e[j - 1].0 == n);
                            lemma_name_order(n, k);
                        }
                    }
                    assert(map_of(new_e) =~= map_of(old_e).insert(k, value));
                }
            },
        }
        self.entries = entries;
    }

    /// Removes `key`, if it is there.
    pub fn remove(&mut self, key: &String)
        ensures
            final(self).map() == old(self).map().remove(key@),
            sorted_names(final(self)@),
    {
        proof {
            use_type_invariant(&*self);
        }
        let ghost old_e = self@;
        let ghost k = key@;
        match self.find(key) {
            Ok(i) => {
                let mut entries: Vec<(String, T)> = Vec::new();
                std::mem::swap(&mut entries, &mut self.entries);
                assert(entry_views(entries@) == old_e);
                entries.remove(i);
                let ghost new_e = old_e.remove(i as int);
                assert(entry_views(entries@) =~= new_e);
                proof {
                    assert forall|a: int, b: int| 0 <= a < b < new_e.len() implies name_lt(#[trigger] new_e[a].0, #[trigger] new_e[b].0) by {
                        if a < i && b < i {
                        } else if a < i {
                            assert(new_e[b].0 == old_e[b + 1].0);
                        } else {
                            assert(new_e[a].0 == old_e[a + 1].0);
                            assert(new_e[b].0 == old_e[b + 1].0);
                        }
                    }
                    assert forall|n: Seq<char>| #![auto] map_of(new_e).contains_key(n) <==> map_of(old_e).remove(k).contains_key(n) by {
                        if n != k && map_of(old_e).contains_key(n) {
                            let j = choose|j: int| 0 <= j < old_e.len() && old_e[j].0 == n;
                            if j < i {
                                assert(new_e[j].0 == n);
                            } else if j > i {
                                assert(new_e[j - 1].0 == n);
                            }
                        }
                        if map_of(new_e).contains_key(n) {
                            let j = choose|j: int| 0 <= j < new_e.len() && new_e[j].0 == n;
                            if j < i {
                                assert(old_e[j].0 == n);
                                assert(name_lt(old_e[j].0, old_e[i as int].0));
                                lemma_name_order(n, n);
                            } else {
                                assert(old_e[j + 1].0 == n);
                                assert(name_lt(old_e[i as int].0, old_e[j + 1].0));
                                lemma_name_order(n, n);
                            }
                        }
                    }
                    assert forall|n: Seq<char>| #![auto] map_of(new_e).contains_key(n) implies map_of(new_e)[n] == map_of(old_e).remove(k)[n] by {
                        let j = choose|j: int| 0 <= j < new_e.len() && new_e[j].0 == n;
                        lemma_map_of_index(new_e, j);
                        if j < i {
                            lemma_map_of_index(old_e, j);
                        } else {
                            lemma_map_of_index(old_e, j + 1);
                        }
                    }
                    assert(map_of(new_e) =~= map_of(old_e).remove(k));
                }
                self.entries = entries;
            },
            Err(i) => {
                proof {
                    assert forall|j: int| 0 <= j < old_e.len() implies old_e[j].0 != k by {
                        lemma_name_order(k, k);
                    }
                    assert(map_of(old_e) =~= map_of(old_e).remove(k));
                }
            },
        }
    }

    /// The same names, in the same order, each with `value`.
    pub fn keys_with<U: Copy>(&self, value: U) -> (r: FieldMap<U>)
        ensures
            r@ == self@.map_values(|e: (Seq<char>, T)| (e.0, value)),
            r.map() == self.map().map_values(|v: T| value),
    {
        proof {
            use_type_invariant(self);
        }
        let ghost e = self@;
        let mut out: Vec<(String, U)> = Vec::new();
        let mut i: usize = 0;
        while i < self.entries.len()
            invariant
                i <= self.entries@.len(),
                e == entry_views(self.entries@),
                out@.len() == i,
                entry_views(out@) == e.subrange(0, i as int).map_values(|p: (Seq<char>, T)| (p.0, value)),
            decreases self.entries@.len() - i,
        {
            let name = self.entries[i].0.clone();
            assert(name@ == e[i as int].0);
            let ghost before = out@;
            out.push((name, value));
            proof {
                let g = e.subrange(0, i + 1).map_values(|p: (Seq<char>, T)| (p.0, value));
                assert(out@ == before.push((name, value)));
                assert(entry_views(out@).len() == i + 1);
                assert(g.len() == i + 1);
                assert(entry_views(before) =~= e.subrange(0, i as int).map_values(|p: (Seq<char>, T)| (p.0, value)));
                assert forall|j: int| 0 <= j < g.len() implies entry_views(out@)[j] == g[j] by {
                    if j < i {
                        assert(out@[j] == before[j]);
                        assert(entry_views(out@)[j] == entry_views(before)[j]);
                    } else {
                        assert(out@[j] == (name, value));
                    }
                }
                assert(entry_views(out@) =~= g);
            }
            i += 1;
        }
        let ghost f = e.map_values(|p: (Seq<char>, T)| (p.0, value));
        assert(e.subrange(0, e.len() as int) =~= e);
        assert(entry_views(out@) == f);
        assert(sorted_names(f)) by {
            assert forall|a: int, b: int| 0 <= a < b < f.len() implies name_lt(#[trigger] f[a].0, #[trigger] f[b].0) by {
                assert(name_lt(e[a].0, e[b].0));
            }
        }
        let r = FieldMap { entries: out };
        proof {
            assert forall|k: Seq<char>| #![auto] map_of(f).contains_key(k) <==> map_of(e).map_values(|v: T| value).contains_key(k) by {
                if map_of(f).contains_key(k) {
                    let w = choose|w: int| 0 <= w < f.len() && f[w].0 == k;
                    assert(0 <= w < e.len() && e[w].0 == k);
                }
                if map_of(e).contains_key(k) {
                    let w = choose|w: int| 0 <= w < e.len() && e[w].0 == k;
                    assert(0 <= w < f.len() && f[w].0 == k);
                }
            }
            assert forall|k: Seq<char>| #![auto] map_of(f).contains_key(k) implies map_of(f)[k] == value by {
                let w = index_of(f, k);
                assert(0 <= w < f.len() && f[w].0 == k);
            }
            assert(map_of(f) =~= map_of(e).map_values(|v: T| value));
        }
        r
    }
}

} // verus!
