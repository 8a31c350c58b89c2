//! A finite map kept as a list of entries, for keys that are compared by content.

use vstd::prelude::*;

use crate::bytes::{copy_bytes, same_bytes};

verus! {

/// A key type whose executable comparison decides equality of views.
pub trait RecordKey: View + Sized {
    /// Whether the two keys have the same view.
    fn same(&self, other: &Self) -> (same: bool)
        ensures
            same == (self@ == other@),
    ;
}

/// A type whose values can be copied.
pub trait Record: View + Sized {
    /// A copy with the same view.
    fn copy(&self) -> (copy: Self)
        ensures
            copy@ == self@,
    ;
}

impl Record for bool {
    fn copy(&self) -> (copy: Self) {
        *self
    }
}

impl Record for Vec<u8> {
    fn copy(&self) -> (copy: Self) {
        copy_bytes(self.as_slice())
    }
}

impl<const N: usize> Record for [u8; N] {
    fn copy(&self) -> (copy: Self) {
        *self
    }
}

impl RecordKey for Vec<u8> {
    fn same(&self, other: &Self) -> (same: bool) {
        same_bytes(self.as_slice(), other.as_slice())
    }
}

impl<const N: usize> RecordKey for [u8; N] {
    fn same(&self, other: &Self) -> (same: bool) {
        same_bytes(self.as_slice(), other.as_slice())
    }
}

/// A map from keys to values. No key occurs twice.
#[derive(Debug)]
pub struct Table<K: RecordKey, V: View> {
    entries: Vec<(K, V)>,
}

/// Whether `key` is the key of one of the entries.
pub closed spec fn has_key<K: RecordKey, V: View>(entries: Seq<(K, V)>, key: K::V) -> bool {
    exists|i: int| 0 <= i < entries.len() && (#[trigger] entries[i]).0@ == key
}

/// The position of an entry with this key.
pub closed spec fn position<K: RecordKey, V: View>(entries: Seq<(K, V)>, key: K::V) -> int {
    choose|i: int| 0 <= i < entries.len() && (#[trigger] entries[i]).0@ == key
}

impl<K: RecordKey, V: View> View for Table<K, V> {
    type V = Map<K::V, V::V>;

    closed spec fn view(&self) -> Map<K::V, V::V> {
        Map::new(
            |key: K::V| has_key(self.entries@, key),
            |key: K::V| self.entries@[position(self.entries@, key)].1@,
        )
    }
}

impl<K: RecordKey, V: View> Table<K, V> {
    #[verifier::type_invariant]
    spec fn keys_differ(self) -> bool {
        forall|i: int, j: int|
            0 <= i < j < self.entries@.len() ==> (#[trigger] self.entries@[i]).0@ != (
            #[trigger] self.entries@[j]).0@
    }

    /// The empty map.
    pub fn new() -> (table: Self)
        ensures
            table@ == Map::<K::V, V::V>::empty(),
    {
        let table = Table { entries: Vec::new() };
        assert(table@ =~= Map::<K::V, V::V>::empty());
        table
    }

    fn find(&self, key: &K) -> (found: Option<usize>)
        ensures
            match found {
                Some(i) => i < self.entries@.len() && self.entries@[i as int].0@ == key@
                    && self@.contains_key(key@) && self@[key@] == self.entries@[i as int].1@,
                None => !self@.contains_key(key@),
            },
    {
        proof {
            use_type_invariant(&*self);
        }
        let mut i: usize = 0;
        while i < self.entries.len()
            invariant
                i <= self.entries@.len(),
                self.keys_differ(),
                forall|j: int| 0 <= j < i ==> (#[trigger] self.entries@[j]).0@ != key@,
            decreases self.entries@.len() - i,
        {
            if self.entries[i].0.same(key) {
                assert(has_key(self.entries@, key@));
                let ghost p = position(self.entries@, key@);
                assert(self.entries@[p].0@ == self.entries@[i as int].0@);
                assert(p == i);
                return Some(i);
            }
            i += 1;
        }
        None
    }

    /// The value stored under a key.
    pub fn get(&self, key: &K) -> (value: Option<&V>)
        ensures
            match value {
                Some(v) => self@.contains_key(key@) && self@[key@] == v@,
                None => !self@.contains_key(key@),
            },
    {
        match self.find(key) {
            Some(i) => Some(&self.entries[i].1),
            None => None,
        }
    }

    /// Whether a key is present.
    pub fn contains_key(&self, key: &K) -> (present: bool)
        ensures
            present == self@.contains_key(key@),
    {
        self.find(key).is_some()
    }

    /// Stores a value under a key, replacing what was stored there.
    pub fn insert(&mut self, key: K, value: V)
        ensures
            final(self)@ == old(self)@.insert(key@, value@),
    {
        proof {
            use_type_invariant(&*self);
        }
        let found = self.find(&key);
        let ghost before = self.entries@;
        let mut entries: Vec<(K, V)> = Vec::new();
        std::mem::swap(&mut entries, &mut self.entries);
        match found {
            Some(i) => {
                entries.set(i, (key, value));
                assert(entries@ == before.update(i as int, (key, value)));
            },
            None => {
                assert forall|j: int| 0 <= j < before.len() implies (#[trigger] before[j]).0@
                    != key@ by {
                    if before[j].0@ == key@ {
                        assert(has_key(before, key@));
                    }
                }
                entries.push((key, value));
                assert(entries@ == before.push((key, value)));
            },
        }
        self.entries = entries;
        proof {
            let after = self.entries@;
            let place = if found is Some {
                found->0 as int
            } else {
                before.len() as int
            };
            assert forall|k: K::V| has_key(after, k) == (k == key@ || has_key(before, k)) by {
                if has_key(after, k) && k != key@ {
                    let i = position(after, k);
                    assert(before[i].0@ == k);
                }
                if k == key@ {
                    assert(after[place].0@ == k);
                } else if has_key(before, k) {
                    let i = position(before, k);
                    assert(after[i].0@ == k);
                }
            }
            assert forall|k: K::V| has_key(after, k) implies after[position(after, k)].1@
                == old(self)@.insert(key@, value@)[k] by {
                let i = position(after, k);
                if k == key@ {
                    assert(after[place].0@ == after[i].0@);
                    assert(i == place);
                } else {
                    assert(before[i].0@ == k);
                    let h = position(before, k);
                    assert(before[h].0@ == before[i].0@);
                    assert(h == i);
                }
            }
            assert(self@ =~= old(self)@.insert(key@, value@));
        }
    }

    /// Takes the value stored under a key out of the map.
    pub fn remove(&mut self, key: &K) -> (value: Option<V>)
        ensures
            final(self)@ == old(self)@.remove(key@),
            match value {
                Some(v) => old(self)@.contains_key(key@) && old(self)@[key@] == v@,
                None => !old(self)@.contains_key(key@),
            },
    {
        proof {
            use_type_invariant(&*self);
        }
        let ghost before = self.entries@;
        match self.find(key) {
            Some(i) => {
                let mut entries: Vec<(K, V)> = Vec::new();
                std::mem::swap(&mut entries, &mut self.entries);
                let (_, value) = entries.remove(i);
                self.entries = entries;
                proof {
                    let after = self.entries@;
                    assert(after == before.remove(i as int));
                    assert forall|k: K::V| has_key(after, k) == (k != key@ && has_key(before, k)) by {
                        if has_key(after, k) {
                            let j = position(after, k);
                            let h = if j < i { j } else { j + 1 };
                            assert(before[h].0@ == k);
                            assert(before[i as int].0@ == key@);
                        }
                        if k != key@ && has_key(before, k) {
                            let j = position(before, k);
                            let h = if j < i { j } else { j - 1 };
                            assert(after[h].0@ == k);
                        }
                    }
                    assert forall|k: K::V| has_key(after, k) implies after[position(after, k)].1@
                        == old(self)@.remove(key@)[k] by {
                        let j = position(after, k);
                        let h = if j < i { j } else { j + 1 };
                        assert(before[h].0@ == k);
                        let p = position(before, k);
                        assert(before[p].0@ == before[h].0@);
                        assert(p == h);
                    }
                    assert(self@ =~= old(self)@.remove(key@));
                }
                Some(value)
            },
            None => {
                assert(self@ =~= old(self)@.remove(key@));
                None
            },
        }
    }

    /// The number of keys.
    pub fn len(&self) -> (count: usize)
        ensures
            self@.dom().finite(),
            count == self@.dom().len(),
    {
        proof {
            use_type_invariant(&*self);
            lemma_key_count(self.entries@);
            assert(self@.dom() =~= Set::new(|key: K::V| has_key(self.entries@, key)));
        }
        self.entries.len()
    }

    /// Whether there is no key.
    pub fn is_empty(&self) -> (empty: bool)
        ensures
            empty == (self@ == Map::<K::V, V::V>::empty()),
    {
        proof {
            if self.entries@.len() == 0 {
                assert(self@ =~= Map::<K::V, V::V>::empty());
            } else {
                let key = self.entries@[0].0@;
                assert(has_key(self.entries@, key));
                assert(self@.contains_key(key));
            }
        }
        self.entries.is_empty()
    }
}

impl<K: RecordKey + Record, V: Record> Clone for Table<K, V> {
    fn clone(&self) -> (copy: Self)
        ensures
            copy@ == self@,
    {
        proof {
            use_type_invariant(self);
        }
        let mut entries: Vec<(K, V)> = Vec::new();
        let mut i: usize = 0;
        while i < self.entries.len()
            invariant
                i <= self.entries@.len(),
                entries@.len() == i,
                forall|k: int|
                    0 <= k < i ==> (#[trigger] entries@[k]).0@ == self.entries@[k].0@
                        && entries@[k].1@ == self.entries@[k].1@,
            decreases self.entries@.len() - i,
        {
            entries.push((self.entries[i].0.copy(), self.entries[i].1.copy()));
            i += 1;
        }
        assert forall|a: int, b: int| 0 <= a < b < entries@.len() implies (
        #[trigger] entries@[a]).0@ != (#[trigger] entries@[b]).0@ by {
            assert(self.entries@[a].0@ != self.entries@[b].0@);
        }
        let copy = Table { entries };
        assert forall|key: K::V| has_key(copy.entries@, key) == has_key(self.entries@, key) && (
        has_key(self.entries@, key) ==> copy.entries@[position(copy.entries@, key)].1@
            == self.entries@[position(self.entries@, key)].1@) by {
            if has_key(copy.entries@, key) {
                let a = position(copy.entries@, key);
                assert(self.entries@[a].0@ == key);
            }
            if has_key(self.entries@, key) {
                let b = position(self.entries@, key);
                assert(copy.entries@[b].0@ == key);
                let a = position(copy.entries@, key);
                assert(self.entries@[a].0@ == self.entries@[b].0@);
                assert(a == b);
            }
        }
        assert(copy@ =~= self@);
        copy
    }
}

proof fn lemma_key_count<K: RecordKey, V: View>(entries: Seq<(K, V)>)
    requires
        forall|i: int, j: int|
            0 <= i < j < entries.len() ==> (#[trigger] entries[i]).0@ != (#[trigger] entries[j]).0@,
    ensures
        Set::new(|key: K::V| has_key(entries, key)).finite(),
        Set::new(|key: K::V| has_key(entries, key)).len() == entries.len(),
    decreases entries.len(),
{
    let keys = Set::new(|key: K::V| has_key(entries, key));
    if entries.len() == 0 {
        assert(keys =~= Set::empty());
    } else {
        let rest = entries.drop_last();
        lemma_key_count(rest);
        let rest_keys = Set::new(|key: K::V| has_key(rest, key));
        let last = entries.last().0@;
        assert forall|k: K::V| keys.contains(k) == rest_keys.insert(last).contains(k) by {
            if has_key(rest, k) {
                let i = position(rest, k);
                assert(entries[i].0@ == k);
            }
            if has_key(entries, k) && k != last {
                let i = position(entries, k);
                assert(rest[i].0@ == k);
            }
            if k == last {
                assert(entries[entries.len() - 1].0@ == k);
            }
        }
        assert(keys =~= rest_keys.insert(last));
        if has_key(rest, last) {
            let i = position(rest, last);
            assert(entries[i].0@ == entries[entries.len() - 1].0@);
        }
    }
}

} // verus!
