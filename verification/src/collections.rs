//! Small keyed collections over strings: a set of strings and a map keyed by
//! strings. Both keep their entries in insertion order and never hold two
//! entries with the same key.

use vstd::prelude::*;
use crate::strings::str_eq;

verus! {

/// The character sequences of a sequence of strings.
pub open spec fn string_views(v: Seq<String>) -> Seq<Seq<char>> {
    v.map_values(|s: String| s@)
}

/// No two entries of `s` are equal.
pub open spec fn no_duplicates<T>(s: Seq<T>) -> bool {
    forall|i: int, j: int| 0 <= i < s.len() && 0 <= j < s.len() && i != j ==> s[i] != s[j]
}

/// A set of strings, iterated in insertion order.
#[derive(Debug)]
pub struct StringSet {
    items: Vec<String>,
}

impl StringSet {
    #[verifier::type_invariant]
    spec fn distinct(self) -> bool {
        no_duplicates(string_views(self.items@))
    }

    /// The members, in iteration order.
    pub closed spec fn elems(&self) -> Seq<Seq<char>> {
        string_views(self.items@)
    }

    /// The members as a set.
    pub open spec fn members(&self) -> Set<Seq<char>> {
        self.elems().to_set()
    }

    /// An empty set.
    pub fn new() -> (r: Self)
        ensures
            r.elems() == Seq::<Seq<char>>::empty(),
    {
        let r = StringSet { items: Vec::new() };
        assert(r.elems() =~= Seq::<Seq<char>>::empty());
        r
    }

    /// Number of members.
    pub fn len(&self) -> (r: usize)
        ensures
            r == self.elems().len(),
    {
        self.items.len()
    }

    /// The member at position `i` of the iteration order.
    pub fn get(&self, i: usize) -> (r: &String)
        requires
            i < self.elems().len(),
        ensures
            r@ == self.elems()[i as int],
    {
        &self.items[i]
    }

    /// Whether `value` is a member.
    pub fn contains(&self, value: &str) -> (r: bool)
        ensures
            r == self.elems().contains(value@),
    {
        let mut i: usize = 0;
        while i < self.items.len()
            invariant
                i <= self.items@.len(),
                forall|k: int| 0 <= k < i ==> self.elems()[k] != value@,
            decreases self.items@.len() - i,
        {
            if str_eq(self.items[i].as_str(), value) {
                assert(self.elems()[i as int] == value@);
                return true;
            }
            i += 1;
        }
        proof {
            if self.elems().contains(value@) {
                let k = choose|k: int| 0 <= k < self.elems().len() && self.elems()[k] == value@;
                assert(self.elems()[k] != value@);
            }
        }
        false
    }

    /// Adds `value`; returns whether it was not a member before.
    pub fn insert(&mut self, value: String) -> (r: bool)
        ensures
            r == !old(self).elems().contains(value@),
            final(self).elems() == (if r { old(self).elems().push(value@) } else { old(self).elems() }),
    {
        if self.contains(value.as_str()) {
            false
        } else {
            proof { use_type_invariant(&*self); }
            let ghost before = self.elems();
            let ghost v = value@;
            let mut items: Vec<String> = Vec::new();
            std::mem::swap(&mut items, &mut self.items);
            items.push(value);
            assert(string_views(items@) =~= before.push(v));
            self.items = items;
            assert(self.elems() =~= before.push(v));
            true
        }
    }

    /// A set holding the distinct strings of `values`, first occurrences first.
    pub fn from_vec(values: Vec<String>) -> (r: Self)
        ensures
            r.members() == string_views(values@).to_set(),
            no_duplicates(r.elems()),
    {
        let mut r = StringSet::new();
        let mut i: usize = 0;
        while i < values.len()
            invariant
                i <= values@.len(),
                r.members() == string_views(values@).take(i as int).to_set(),
            decreases values@.len() - i,
        {
            let ghost before = r.elems();
            r.insert(values[i].clone());
            assert(string_views(values@).take(i + 1) =~= string_views(values@).take(i as int).push(values@[i as int]@));
            proof {
                string_views(values@).take(i as int).lemma_push_to_set_commute(values@[i as int]@);
                if r.elems() != before.push(values@[i as int]@) {
                    assert(before.contains(values@[i as int]@));
                    assert(r.members() =~= before.to_set().insert(values@[i as int]@));
                } else {
                    before.lemma_push_to_set_commute(values@[i as int]@);
                }
            }
            i += 1;
        }
        assert(string_views(values@).take(values@.len() as int) =~= string_views(values@));
        proof { use_type_invariant(&r); }
        r
    }
}

impl Clone for StringSet {
    /// The same members in the same order.
    fn clone(&self) -> (r: Self)
        ensures
            r.elems() == self.elems(),
    {
        proof { use_type_invariant(self); }
        let mut items: Vec<String> = Vec::new();
        let mut i: usize = 0;
        while i < self.items.len()
            invariant
                i <= self.items@.len(),
                string_views(items@) == string_views(self.items@).take(i as int),
            decreases self.items@.len() - i,
        {
            items.push(self.items[i].clone());
            assert(string_views(self.items@).take(i + 1) =~= string_views(self.items@).take(i as int).push(self.items@[i as int]@));
            assert(string_views(items@) =~= string_views(self.items@).take(i + 1));
            i += 1;
        }
        assert(string_views(self.items@).take(self.items@.len() as int) =~= string_views(self.items@));
        StringSet { items }
    }
}

/// A map keyed by strings, iterated in insertion order.
#[derive(Debug)]
pub struct StringMap<V> {
    pub(crate) entries: Vec<(String, V)>,
}

/// The key sequence of a sequence of entries.
pub open spec fn entry_keys<V>(e: Seq<(String, V)>) -> Seq<Seq<char>> {
    e.map_values(|p: (String, V)| p.0@)
}

impl<V> StringMap<V> {
    #[verifier::type_invariant]
    spec fn distinct(self) -> bool {
        no_duplicates(entry_keys(self.entries@))
    }

    /// The keys, in iteration order.
    pub closed spec fn keys(&self) -> Seq<Seq<char>> {
        entry_keys(self.entries@)
    }

    /// The values, in the order of `keys`.
    pub closed spec fn values(&self) -> Seq<V> {
        self.entries@.map_values(|p: (String, V)| p.1)
    }

    /// How `keys` and `values` read the stored entries.
    pub(crate) proof fn lemma_entries(&self)
        ensures
            self.keys().len() == self.entries@.len(),
            self.values().len() == self.entries@.len(),
            forall|i: int| 0 <= i < self.entries@.len() ==> #[trigger] self.entries@[i].1 == self.values()[i],
            forall|i: int| 0 <= i < self.entries@.len() ==> #[trigger] self.entries@[i].0@ == self.keys()[i],
    {
    }

    /// The entries as a map.
    pub open spec fn to_map(&self) -> Map<Seq<char>, V> {
        Map::new(
            |k: Seq<char>| self.keys().contains(k),
            |k: Seq<char>| self.values()[self.keys().index_of(k)],
        )
    }

    pub(crate) proof fn lemma_shape(&self)
        requires
            no_duplicates(self.keys()),
        ensures
            self.keys().len() == self.values().len(),
            no_duplicates(self.keys()),
            forall|i: int| 0 <= i < self.keys().len() ==> #[trigger] self.to_map()[self.keys()[i]] == self.values()[i],
            forall|i: int| 0 <= i < self.keys().len() ==> self.to_map().dom().contains(#[trigger] self.keys()[i]),
            self.to_map().dom() == self.keys().to_set(),
    {
        assert forall|i: int| 0 <= i < self.keys().len() implies #[trigger] self.to_map()[self.keys()[i]] == self.values()[i] by {
            assert(self.keys().contains(self.keys()[i]));
            let j = self.keys().index_of(self.keys()[i]);
            assert(self.keys()[j] == self.keys()[i]);
        }
        assert(self.to_map().dom() =~= self.keys().to_set());
    }

    /// An empty map.
    pub fn new() -> (r: Self)
        ensures
            r.keys() == Seq::<Seq<char>>::empty(),
            r.to_map() == Map::<Seq<char>, V>::empty(),
    {
        let r = StringMap { entries: Vec::new() };
        assert(r.keys() =~= Seq::<Seq<char>>::empty());
        assert(r.to_map() =~= Map::<Seq<char>, V>::empty());
        r
    }

    /// Each value is structurally smaller than the map holding it.
    pub proof fn lemma_value_decreases(&self, i: int)
        requires
            0 <= i < self.values().len(),
        ensures
            decreases_to!(*self => self.values()[i]),
    {
        assert(decreases_to!(*self => self.entries));
        assert(decreases_to!(self.entries => self.entries@));
        assert(decreases_to!(self.entries@ => self.entries@[i]));
        assert(decreases_to!(self.entries@[i] => self.entries@[i].1));
    }

    /// The map reads the entry at position `i` of the iteration order.
    pub proof fn lemma_to_map_at(&self, i: int)
        requires
            0 <= i < self.keys().len(),
        ensures
            self.to_map().dom().contains(self.keys()[i]),
    {
    }

    /// Number of entries.
    pub fn len(&self) -> (r: usize)
        ensures
            r == self.keys().len(),
            r == self.to_map().len(),
            no_duplicates(self.keys()),
            self.to_map().dom() == self.keys().to_set(),
    {
        proof {
            use_type_invariant(self);
            self.lemma_shape();
            self.keys().unique_seq_to_set();
        }
        self.entries.len()
    }

    /// Whether the map is empty.
    pub fn is_empty(&self) -> (r: bool)
        ensures
            r == (self.to_map() == Map::<Seq<char>, V>::empty()),
            r == (self.keys().len() == 0),
    {
        proof { use_type_invariant(self); self.lemma_shape(); }
        if self.entries.len() == 0 {
            assert(self.to_map() =~= Map::<Seq<char>, V>::empty());
            true
        } else {
            assert(self.to_map().dom().contains(self.keys()[0]));
            false
        }
    }

    /// Position of `key` among the keys, if present.
    fn find(&self, key: &str) -> (r: Option<usize>)
        ensures
            match r {
                Some(i) => i < self.keys().len() && self.keys()[i as int] == key@,
                None => !self.keys().contains(key@),
            },
    {
        let mut i: usize = 0;
        while i < self.entries.len()
            invariant
                i <= self.entries@.len(),
                forall|k: int| 0 <= k < i ==> self.keys()[k] != key@,
            decreases self.entries@.len() - i,
        {
            if str_eq(self.entries[i].0.as_str(), key) {
                return Some(i);
            }
            i += 1;
        }
        proof {
            if self.keys().contains(key@) {
                let k = choose|k: int| 0 <= k < self.keys().len() && self.keys()[k] == key@;
                assert(self.keys()[k] != key@);
            }
        }
        None
    }

    /// The key at position `i` of the iteration order.
    pub fn key_at(&self, i: usize) -> (r: &String)
        requires
            i < self.keys().len(),
        ensures
            r@ == self.keys()[i as int],
    {
        &self.entries[i].0
    }

    /// The value at position `i` of the iteration order.
    pub fn value_at(&self, i: usize) -> (r: &V)
        requires
            i < self.keys().len(),
        ensures
            *r == self.values()[i as int],
            *r == self.to_map()[self.keys()[i as int]],
            self.to_map().dom().contains(self.keys()[i as int]),
    {
        proof { use_type_invariant(self); self.lemma_shape(); }
        &self.entries[i].1
    }

    /// Whether `key` has an entry.
    pub fn contains_key(&self, key: &str) -> (r: bool)
        ensures
            r == self.to_map().dom().contains(key@),
    {
        match self.find(key) {
            Some(_) => true,
            None => false,
        }
    }

    /// The value stored under `key`.
    pub fn get(&self, key: &str) -> (r: Option<&V>)
        ensures
            match r {
                Some(v) => self.to_map().dom().contains(key@) && *v == self.to_map()[key@],
                None => !self.to_map().dom().contains(key@),
            },
    {
        proof { use_type_invariant(self); self.lemma_shape(); }
        match self.find(key) {
            Some(i) => {
                assert(self.to_map()[self.keys()[i as int]] == self.values()[i as int]);
                Some(&self.entries[i].1)
            },
            None => None,
        }
    }

    /// Stores `value` under `key`, replacing an earlier value in place or
    /// appending a new entry; returns the earlier value.
    pub fn insert(&mut self, key: String, value: V) -> (r: Option<V>)
        ensures
            final(self).to_map() == old(self).to_map().insert(key@, value),
            match r {
                Some(v) => old(self).to_map().dom().contains(key@) && v == old(self).to_map()[key@]
                    && final(self).keys() == old(self).keys(),
                None => !old(self).to_map().dom().contains(key@)
                    && final(self).keys() == old(self).keys().push(key@),
            },
    {
        proof { use_type_invariant(&*self); self.lemma_shape(); }
        let ghost old_keys = self.keys();
        let ghost old_vals = self.values();
        let ghost old_map = self.to_map();
        match self.find(key.as_str()) {
            Some(i) => {
                let ghost k = key@;
                let entry = (key, value);
                let mut entries: Vec<(String, V)> = Vec::new();
                std::mem::swap(&mut entries, &mut self.entries);
                let old_entry = entries.remove(i);
                entries.insert(i, entry);
                assert(entry_keys(entries@) =~= old_keys);
                self.entries = entries;
                proof {
                    assert(self.keys() =~= old_keys);
                    assert(self.values() =~= old_vals.update(i as int, value));
                    assert(self.to_map() =~= old_map.insert(k, value)) by {
                        assert forall|kk: Seq<char>| self.to_map().dom().contains(kk) implies self.to_map()[kk] == old_map.insert(k, value)[kk] by {
                            let j = self.keys().index_of(kk);
                            if kk == k {
                                assert(self.keys()[i as int] == k);
                            } else {
                                assert(old_keys[j] == kk);
                            }
                        }
                    }
                    assert(old_map[k] == old_vals[i as int]) by {
                        assert(old_map[old_keys[i as int]] == old_vals[i as int]);
                    }
                }
                Some(old_entry.1)
            },
            None => {
                let ghost k = key@;
                let mut entries: Vec<(String, V)> = Vec::new();
                std::mem::swap(&mut entries, &mut self.entries);
                entries.push((key, value));
                assert(entry_keys(entries@) =~= old_keys.push(k));
                self.entries = entries;
                proof {
                    use_type_invariant(&*self);
                    assert(self.keys() =~= old_keys.push(k));
                    assert(self.values() =~= old_vals.push(value));
                    assert(self.to_map() =~= old_map.insert(k, value)) by {
                        assert forall|kk: Seq<char>| #![auto] self.to_map().dom().contains(kk) <==> old_map.insert(k, value).dom().contains(kk) by {
                            if old_keys.contains(kk) {
                                let j = old_keys.index_of(kk);
                                assert(self.keys()[j] == kk);
                            }
                            if kk == k {
                                assert(self.keys()[old_keys.len() as int] == k);
                            }
                            if self.keys().contains(kk) && kk != k {
                                let j = self.keys().index_of(kk);
                                assert(old_keys[j] == kk);
                            }
                        }
                        assert forall|kk: Seq<char>| self.to_map().dom().contains(kk) implies self.to_map()[kk] == old_map.insert(k, value)[kk] by {
                            let j = self.keys().index_of(kk);
                            if kk == k {
                                assert(self.keys()[old_keys.len() as int] == k);
                                assert(no_duplicates(self.keys()));
                            } else {
                                assert(old_keys.contains(kk));
                                let j0 = old_keys.index_of(kk);
                                assert(self.keys()[j0] == kk);
                                assert(no_duplicates(self.keys()));
                            }
                        }
                    }
                }
                None
            },
        }
    }

    /// Removes the entry for `key`, keeping the order of the others; returns
    /// its value.
    pub fn remove(&mut self, key: &str) -> (r: Option<V>)
        ensures
            final(self).to_map() == old(self).to_map().remove(key@),
            match r {
                Some(v) => old(self).to_map().dom().contains(key@) && v == old(self).to_map()[key@],
                None => !old(self).to_map().dom().contains(key@),
            },
    {
        proof { use_type_invariant(&*self); self.lemma_shape(); }
        let ghost old_keys = self.keys();
        let ghost old_vals = self.values();
        let ghost old_map = self.to_map();
        match self.find(key) {
            Some(i) => {
                let mut entries: Vec<(String, V)> = Vec::new();
                std::mem::swap(&mut entries, &mut self.entries);
                let e = entries.remove(i);
                assert(entry_keys(entries@) =~= old_keys.remove(i as int));
                self.entries = entries;
                proof {
                    use_type_invariant(&*self);
                    assert(self.keys() =~= old_keys.remove(i as int));
                    assert(self.values() =~= old_vals.remove(i as int));
                    assert(no_duplicates(self.keys()));
                    assert(old_map[old_keys[i as int]] == old_vals[i as int]);
                    assert(self.to_map() =~= old_map.remove(key@)) by {
                        assert forall|kk: Seq<char>| #![auto] self.to_map().dom().contains(kk) <==> old_map.remove(key@).dom().contains(kk) by {
                            if old_keys.contains(kk) && kk != key@ {
                                let j = old_keys.index_of(kk);
                                if j < i { assert(self.keys()[j] == kk); } else { assert(self.keys()[j - 1] == kk); }
                            }
                            if self.keys().contains(kk) {
                                let j = self.keys().index_of(kk);
                                if j < i { assert(old_keys[j] == kk); } else { assert(old_keys[j + 1] == kk); }
                            }
                        }
                        assert forall|kk: Seq<char>| self.to_map().dom().contains(kk) implies self.to_map()[kk] == old_map.remove(key@)[kk] by {
                            let j = self.keys().index_of(kk);
                            if j < i {
                                assert(old_keys[j] == kk);
                                assert(old_map[old_keys[j]] == old_vals[j]);
                            } else {
                                assert(old_keys[j + 1] == kk);
                                assert(old_map[old_keys[j + 1]] == old_vals[j + 1]);
                            }
                            assert(self.to_map()[self.keys()[j]] == self.values()[j]);
                        }
                    }
                }
                Some(e.1)
            },
            None => {
                assert(self.to_map() =~= old_map.remove(key@));
                None
            },
        }
    }
}

impl<V: Clone> Clone for StringMap<V> {
    /// The same keys in the same order, each value cloned.
    fn clone(&self) -> (r: Self)
        ensures
            r.keys() == self.keys(),
            r.values().len() == self.values().len(),
            forall|i: int| 0 <= i < self.values().len() ==> cloned::<V>(self.values()[i], #[trigger] r.values()[i]),
    {
        proof { use_type_invariant(self); }
        let mut entries: Vec<(String, V)> = Vec::new();
        let mut i: usize = 0;
        while i < self.entries.len()
            invariant
                i <= self.entries@.len(),
                entry_keys(entries@) == entry_keys(self.entries@).take(i as int),
                entries@.len() == i,
                forall|j: int| 0 <= j < i ==> cloned::<V>(self.entries@[j].1, #[trigger] entries@[j].1),
            decreases self.entries@.len() - i,
        {
            let k = self.entries[i].0.clone();
            let v = self.entries[i].1.clone();
            entries.push((k, v));
            assert(entry_keys(entries@) =~= entry_keys(self.entries@).take(i + 1));
            i += 1;
        }
        assert(entry_keys(self.entries@).take(self.entries@.len() as int) =~= entry_keys(self.entries@));
        let r = StringMap { entries };
        proof {
            assert forall|j: int| 0 <= j < self.values().len() implies cloned::<V>(self.values()[j], #[trigger] r.values()[j]) by {
                assert(self.values()[j] == self.entries@[j].1);
                assert(r.values()[j] == r.entries@[j].1);
            }
        }
        r
    }
}

} // verus!
