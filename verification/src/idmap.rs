//! A map from RTU ids to whatever is kept per RTU.

use vstd::prelude::*;

verus! {

/// A map keyed by text, which keeps its entries in the order in which their
/// keys were first inserted. No key occurs twice.
pub struct IdMap<V> {
    entries: Vec<(String, V)>,
}

/// Whether no two entries have the same key.
pub open spec fn keys_distinct<V>(entries: Seq<(String, V)>) -> bool {
    forall|i: int, j: int|
        0 <= i < j < entries.len() ==> #[trigger] entries[i].0@ != #[trigger] entries[j].0@
}

/// The keys of a map once something is kept for `key`.
pub open spec fn keys_with(keys: Seq<Seq<char>>, key: Seq<char>) -> Seq<Seq<char>> {
    if keys.contains(key) {
        keys
    } else {
        keys.push(key)
    }
}

impl<V> IdMap<V> {
    #[verifier::type_invariant]
    spec fn well_formed(self) -> bool {
        keys_distinct(self.entries@)
    }

    /// The keys, in the order in which they were first inserted.
    pub closed spec fn keys(self) -> Seq<Seq<char>> {
        self.entries@.map_values(|e: (String, V)| e.0@)
    }

    /// The values, in the order of their keys.
    pub closed spec fn values(self) -> Seq<V> {
        self.entries@.map_values(|e: (String, V)| e.1)
    }

    /// The value kept for `key`.
    pub open spec fn lookup(self, key: Seq<char>) -> Option<V> {
        if self.keys().contains(key) {
            Some(self.values()[self.keys().index_of(key)])
        } else {
            None
        }
    }

    /// A map without entries.
    pub fn new() -> (r: IdMap<V>)
        ensures
            r.keys() == Seq::<Seq<char>>::empty(),
            r.values() == Seq::<V>::empty(),
            forall|k: Seq<char>| #[trigger] r.lookup(k) is None,
    {
        let r = IdMap { entries: Vec::new() };
        assert(r.keys() =~= Seq::<Seq<char>>::empty());
        assert(r.values() =~= Seq::<V>::empty());
        r
    }

    /// The position of the entry for `key`, if there is one.
    fn position(&self, key: &String) -> (r: Option<usize>)
        ensures
            match r {
                Some(i) => i < self.entries@.len() && self.entries@[i as int].0@ == key@,
                None => forall|i: int|
                    0 <= i < self.entries@.len() ==> #[trigger] self.entries@[i].0@ != key@,
            },
    {
        let mut i: usize = 0;
        while i < self.entries.len()
            invariant
                i <= self.entries@.len(),
                forall|j: int| 0 <= j < i ==> #[trigger] self.entries@[j].0@ != key@,
            decreases self.entries@.len() - i,
        {
            if self.entries[i].0 == *key {
                return Some(i);
            }
            i = i + 1;
        }
        None
    }

    /// The value kept for `key`.
    pub fn get(&self, key: &String) -> (r: Option<&V>)
        ensures
            match r {
                Some(v) => self.lookup(key@) == Some(*v),
                None => self.lookup(key@) is None,
            },
    {
        proof {
            use_type_invariant(self);
        }
        match self.position(key) {
            Some(i) => {
                proof {
                    assert(self.keys()[i as int] == key@);
                    let k = self.keys().index_of(key@);
                    assert(self.keys()[k] == key@);
                    assert(self.entries@[k].0@ == self.entries@[i as int].0@);
                    assert(k == i);
                }
                Some(&self.entries[i].1)
            },
            None => {
                assert forall|i: int| 0 <= i < self.keys().len() implies self.keys()[i]
                    != key@ by {
                    assert(self.entries@[i].0@ != key@);
                }
                None
            },
        }
    }

    /// Keeps `value` for `key`, in place of whatever was kept for it before.
    pub fn insert(&mut self, key: String, value: V)
        ensures
            forall|k: Seq<char>| #[trigger]
                final(self).lookup(k) == (if k == key@ {
                    Some(value)
                } else {
                    old(self).lookup(k)
                }),
            final(self).keys() == keys_with(old(self).keys(), key@),
            final(self).values() == if old(self).keys().contains(key@) {
                old(self).values().update(old(self).keys().index_of(key@), value)
            } else {
                old(self).values().push(value)
            },
    {
        proof {
            use_type_invariant(&*self);
        }
        let ghost before = *self;
        match self.position(&key) {
            Some(i) => {
                let mut entries: Vec<(String, V)> = Vec::new();
                std::mem::swap(&mut entries, &mut self.entries);
                entries.set(i, (key, value));
                self.entries = entries;
                proof {
                    assert(before.keys()[i as int] == key@);
                    assert(self.keys() =~= before.keys());
                    assert(self.values() =~= before.values().update(i as int, value));
                    let k = before.keys().index_of(key@);
                    assert(before.keys()[k] == key@);
                    assert(before.entries@[k].0@ == before.entries@[i as int].0@);
                    assert(k == i);
                    lemma_lookup_after_set(before, *self, key@, value, i as int);
                }
            },
            None => {
                proof {
                    assert forall|i: int| 0 <= i < before.keys().len() implies before.keys()[i]
                        != key@ by {
                        assert(before.entries@[i].0@ != key@);
                    }
                }
                let mut entries: Vec<(String, V)> = Vec::new();
                std::mem::swap(&mut entries, &mut self.entries);
                entries.push((key, value));
                self.entries = entries;
                proof {
                    assert(self.keys() =~= before.keys().push(key@));
                    assert(self.values() =~= before.values().push(value));
                    lemma_lookup_after_push(before, *self, key@, value);
                }
            },
        }
    }

    /// The number of entries.
    pub fn len(&self) -> (r: usize)
        ensures
            r == self.keys().len(),
            r == self.values().len(),
            self.keys().no_duplicates(),
    {
        proof {
            use_type_invariant(self);
            lemma_keys_distinct(*self);
        }
        self.entries.len()
    }

    /// The value at position `i`.
    pub fn at(&self, i: usize) -> (r: &V)
        requires
            i < self.values().len(),
        ensures
            *r == self.values()[i as int],
            self.lookup(self.keys()[i as int]) == Some(*r),
    {
        proof {
            use_type_invariant(self);
            lemma_keys_distinct(*self);
            assert(self.keys().contains(self.keys()[i as int]));
        }
        &self.entries[i].1
    }
}

/// No key is listed twice.
proof fn lemma_keys_distinct<V>(map: IdMap<V>)
    requires
        keys_distinct(map.entries@),
    ensures
        map.keys().no_duplicates(),
{
    let keys = map.keys();
    assert forall|i: int, j: int|
        0 <= i < keys.len() && 0 <= j < keys.len() && i != j implies keys[i] != keys[j] by {
        if i < j {
            assert(map.entries@[i].0@ != map.entries@[j].0@);
        } else {
            assert(map.entries@[j].0@ != map.entries@[i].0@);
        }
    }
}

/// Lookups after the value at position `i` was replaced.
proof fn lemma_lookup_after_set<V>(
    before: IdMap<V>,
    after: IdMap<V>,
    key: Seq<char>,
    value: V,
    i: int,
)
    requires
        keys_distinct(before.entries@),
        0 <= i < before.entries@.len(),
        before.keys()[i] == key,
        after.keys() == before.keys(),
        after.values() == before.values().update(i, value),
    ensures
        forall|k: Seq<char>| #[trigger]
            after.lookup(k) == (if k == key {
                Some(value)
            } else {
                before.lookup(k)
            }),
{
    assert forall|k: Seq<char>| #[trigger]
        after.lookup(k) == (if k == key {
            Some(value)
        } else {
            before.lookup(k)
        }) by {
        if before.keys().contains(k) {
            let p = before.keys().index_of(k);
            assert(before.keys()[p] == k);
            assert(before.entries@[p].0@ == k);
            assert(before.entries@[i].0@ == key);
            if k == key {
                assert(p == i);
            }
        }
    }
}

/// Lookups after an entry with a new key was added.
proof fn lemma_lookup_after_push<V>(before: IdMap<V>, after: IdMap<V>, key: Seq<char>, value: V)
    requires
        keys_distinct(after.entries@),
        !before.keys().contains(key),
        after.keys() == before.keys().push(key),
        after.values() == before.values().push(value),
    ensures
        forall|k: Seq<char>| #[trigger]
            after.lookup(k) == (if k == key {
                Some(value)
            } else {
                before.lookup(k)
            }),
{
    let n = before.keys().len() as int;
    assert(after.keys()[n] == key);
    assert forall|k: Seq<char>| #[trigger]
        after.lookup(k) == (if k == key {
            Some(value)
        } else {
            before.lookup(k)
        }) by {
        if k == key {
            let p = after.keys().index_of(k);
            assert(after.keys()[p] == k);
            assert(after.entries@[p].0@ == k);
            assert(after.entries@[n].0@ == k);
            assert(p == n);
        } else if before.keys().contains(k) {
            let p = before.keys().index_of(k);
            assert(after.keys()[p] == k);
            let q = after.keys().index_of(k);
            assert(after.keys()[q] == k);
            assert(after.entries@[p].0@ == k);
            assert(after.entries@[q].0@ == k);
            assert(p == q);
        } else {
            assert forall|q: int| 0 <= q < after.keys().len() implies after.keys()[q] != k by {
                if q < n {
                    assert(after.keys()[q] == before.keys()[q]);
                }
            }
        }
    }
}

/// The keys of a map after something was inserted for each of `ids` in turn.
pub open spec fn keys_for(ids: Seq<Seq<char>>) -> Seq<Seq<char>>
    decreases ids.len(),
{
    if ids.len() == 0 {
        Seq::empty()
    } else {
        keys_with(keys_for(ids.drop_last()), ids.last())
    }
}

/// Ids that all differ never overwrite each other: each gets an entry of its
/// own.
pub proof fn law_distinct_ids_all_get_entries(ids: Seq<Seq<char>>)
    requires
        ids.no_duplicates(),
    ensures
        keys_for(ids) == ids,
    decreases ids.len(),
{
    if ids.len() > 0 {
        let rest = ids.drop_last();
        law_distinct_ids_all_get_entries(rest);
        assert(!rest.contains(ids.last())) by {
            if rest.contains(ids.last()) {
                let k = rest.index_of(ids.last());
                assert(ids[k] == ids[ids.len() - 1]);
            }
        }
        assert(rest.push(ids.last()) =~= ids);
    } else {
        assert(keys_for(ids) =~= ids);
    }
}

/// A map has a key once something is kept for it, behind those that it had if it
/// is new, and loses none.
pub proof fn law_keys_are_only_added(keys: Seq<Seq<char>>, key: Seq<char>)
    ensures
        keys_with(keys, key).contains(key),
        keys.is_prefix_of(keys_with(keys, key)),
        keys.contains(key) ==> keys_with(keys, key).len() == keys.len(),
        !keys.contains(key) ==> keys_with(keys, key).len() == keys.len() + 1,
        !keys.contains(key) ==> keys_with(keys, key).last() == key,
{
    if !keys.contains(key) {
        assert(keys.push(key)[keys.len() as int] == key);
    }
}

} // verus!
