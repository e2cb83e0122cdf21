//! A finite map keyed by 32-byte identifiers, kept as a list of entries
//! with pairwise distinct keys. Its model is a `Map`; the storage order of
//! the keys is exposed as `order()` for callers that walk the entries.
use vstd::prelude::*;
use crate::pow::hash_eq;

verus! {

/// A map from 32-byte keys to values.
#[derive(Debug, Clone)]
pub struct ByteMap<V> {
    entries: Vec<([u8; 32], V)>,
}

/// The keys of a list of entries.
pub open spec fn entry_keys<V>(entries: Seq<([u8; 32], V)>) -> Seq<[u8; 32]> {
    entries.map_values(|e: ([u8; 32], V)| e.0)
}

/// The map described by a list of entries with distinct keys.
pub open spec fn entries_map<V>(entries: Seq<([u8; 32], V)>) -> Map<[u8; 32], V> {
    Map::new(
        |k: [u8; 32]| entry_keys(entries).contains(k),
        |k: [u8; 32]| entries[entry_keys(entries).index_of(k)].1,
    )
}

proof fn lemma_index_of_unique<V>(entries: Seq<([u8; 32], V)>, j: int)
    requires
        entry_keys(entries).no_duplicates(),
        0 <= j < entries.len(),
    ensures
        entry_keys(entries).index_of(entries[j].0) == j,
        entry_keys(entries).contains(entries[j].0),
{
    let ks = entry_keys(entries);
    assert(ks[j] == entries[j].0);
    let i = ks.index_of(entries[j].0);
    assert(0 <= i < ks.len() && ks[i] == entries[j].0);
}

proof fn lemma_update_value<V>(entries: Seq<([u8; 32], V)>, i: int, v: V)
    requires
        entry_keys(entries).no_duplicates(),
        0 <= i < entries.len(),
    ensures
        ({
            let e2 = entries.update(i, (entries[i].0, v));
            &&& entry_keys(e2) == entry_keys(entries)
            &&& entries_map(e2) == entries_map(entries).insert(entries[i].0, v)
        }),
{
    let e2 = entries.update(i, (entries[i].0, v));
    assert(entry_keys(e2) =~= entry_keys(entries));
    let k = entries[i].0;
    lemma_index_of_unique(entries, i);
    assert forall|x: [u8; 32]| #[trigger] entries_map(e2).dom().contains(x) implies entries_map(
        e2,
    )[x] == entries_map(entries).insert(k, v)[x] by {
        let j = entry_keys(entries).index_of(x);
        let ks = entry_keys(entries);
        assert(0 <= j < ks.len() && ks[j] == x);
        lemma_index_of_unique(entries, j);
        if x == k {
            assert(j == i);
        } else {
            assert(j != i);
        }
    }
    assert(entries_map(e2) =~= entries_map(entries).insert(k, v));
}

impl<V> View for ByteMap<V> {
    type V = Map<[u8; 32], V>;

    closed spec fn view(&self) -> Map<[u8; 32], V> {
        entries_map(self.entries@)
    }
}

impl<V> ByteMap<V> {
    /// The keys in storage order.
    pub closed spec fn order(&self) -> Seq<[u8; 32]> {
        entry_keys(self.entries@)
    }

    /// Well-formedness: the keys are pairwise distinct.
    pub closed spec fn wf(&self) -> bool {
        entry_keys(self.entries@).no_duplicates()
    }

    /// The storage order lists every key of the map exactly once.
    pub proof fn lemma_order(&self)
        requires
            self.wf(),
        ensures
            self.order().no_duplicates(),
            forall|k: [u8; 32]| #[trigger] self@.dom().contains(k) <==> self.order().contains(k),
            self@.dom() == self.order().to_set(),
            self@.dom().finite(),
            self@.dom().len() == self.order().len(),
    {
        assert(self@.dom() =~= self.order().to_set());
        self.order().unique_seq_to_set();
    }

    /// Creates an empty map.
    pub fn new() -> (m: Self)
        ensures
            m.wf(),
            m@ == Map::<[u8; 32], V>::empty(),
            m.order() == Seq::<[u8; 32]>::empty(),
    {
        let m = ByteMap { entries: Vec::new() };
        assert(m@ =~= Map::<[u8; 32], V>::empty());
        assert(m.order() =~= Seq::<[u8; 32]>::empty());
        m
    }

    /// Returns the number of entries.
    pub fn len(&self) -> (n: usize)
        requires
            self.wf(),
        ensures
            n == self@.dom().len(),
            n == self.order().len(),
    {
        proof {
            self.lemma_order();
        }
        self.entries.len()
    }

    fn find(&self, key: &[u8; 32]) -> (r: Option<usize>)
        requires
            self.wf(),
        ensures
            match r {
                Some(i) => i < self.entries@.len() && self.entries@[i as int].0 == *key,
                None => !self@.dom().contains(*key),
            },
    {
        let mut i: usize = 0;
        while i < self.entries.len()
            invariant
                i <= self.entries@.len(),
                forall|j: int| 0 <= j < i ==> self.entries@[j].0 != *key,
            decreases self.entries@.len() - i,
        {
            if hash_eq(&self.entries[i].0, key) {
                proof {
                    assert(self.entries@[i as int].0@ == key@);
                    assert(self.entries@[i as int].0 =~= *key);
                }
                return Some(i);
            }
            i = i + 1;
        }
        proof {
            if entry_keys(self.entries@).contains(*key) {
                let j = entry_keys(self.entries@).index_of(*key);
                assert(self.entries@[j].0 == *key);
            }
        }
        None
    }

    /// Returns `true` if the key is present.
    pub fn contains_key(&self, key: &[u8; 32]) -> (r: bool)
        requires
            self.wf(),
        ensures
            r == self@.dom().contains(*key),
    {
        match self.find(key) {
            Some(i) => {
                proof {
                    lemma_index_of_unique(self.entries@, i as int);
                }
                true
            },
            None => false,
        }
    }

    /// Returns the value stored under the key, if any.
    pub fn get(&self, key: &[u8; 32]) -> (r: Option<&V>)
        requires
            self.wf(),
        ensures
            match r {
                Some(v) => self@.dom().contains(*key) && self@[*key] == *v,
                None => !self@.dom().contains(*key),
            },
    {
        match self.find(key) {
            Some(i) => {
                proof {
                    lemma_index_of_unique(self.entries@, i as int);
                }
                Some(&self.entries[i].1)
            },
            None => None,
        }
    }

    /// A mutable reference to the value stored under the key, if any; what is
    /// written through it becomes the key's value.
    pub fn get_mut(&mut self, key: &[u8; 32]) -> (r: Option<&mut V>)
        requires
            old(self).wf(),
        ensures
            match r {
                Some(v) => old(self)@.dom().contains(*key) && *v == old(self)@[*key]
                    && final(self).wf() && final(self)@ == old(self)@.insert(*key, *final(v))
                    && final(self).order() == old(self).order(),
                None => !old(self)@.dom().contains(*key) && *final(self) == *old(self),
            },
    {
        match self.find(key) {
            Some(i) => {
                let ghost old_entries = self.entries@;
                proof {
                    lemma_index_of_unique(self.entries@, i as int);
                }
                let entry = &mut self.entries[i];
                let v = &mut entry.1;
                proof {
                    lemma_update_value(old_entries, i as int, *final(v));
                }
                Some(v)
            },
            None => None,
        }
    }

    /// Stores `value` under `key`, replacing any previous value. A new key is
    /// appended to the storage order; an existing key keeps its place.
    pub fn insert(&mut self, key: [u8; 32], value: V)
        requires
            old(self).wf(),
        ensures
            final(self).wf(),
            final(self)@ == old(self)@.insert(key, value),
            old(self)@.dom().contains(key) ==> final(self).order() == old(self).order(),
            !old(self)@.dom().contains(key) ==> final(self).order() == old(self).order().push(key),
    {
        let ghost old_entries = self.entries@;
        match self.find(&key) {
            Some(i) => {
                proof {
                    lemma_index_of_unique(old_entries, i as int);
                }
                self.entries.remove(i);
                self.entries.insert(i, (key, value));
                let ghost ne = self.entries@;
                assert(ne =~= old_entries.update(i as int, (key, value)));
                assert(entry_keys(ne) =~= entry_keys(old_entries));
                assert forall|k: [u8; 32]| #[trigger]
                    entries_map(ne).dom().contains(k) implies entries_map(ne)[k] == old(
                    self,
                )@.insert(key, value)[k] by {
                    let j = entry_keys(ne).index_of(k);
                    assert(entry_keys(ne)[j] == k);
                    proof_index_for_key(old_entries, j);
                    if k != key {
                        assert(j != i);
                    }
                }
                assert(self@ =~= old(self)@.insert(key, value));
            },
            None => {
                self.entries.push((key, value));
                let ghost ne = self.entries@;
                assert(entry_keys(ne) =~= entry_keys(old_entries).push(key));
                assert(!entry_keys(old_entries).contains(key));
                assert forall|k: [u8; 32]|
                    entries_map(ne).dom().contains(k) <==> #[trigger] old(self)@.insert(
                        key,
                        value,
                    ).dom().contains(k) by {
                    if entry_keys(ne).contains(k) && k != key {
                        let j = entry_keys(ne).index_of(k);
                        assert(entry_keys(old_entries)[j] == k);
                    }
                    if entry_keys(old_entries).contains(k) {
                        let j = entry_keys(old_entries).index_of(k);
                        assert(entry_keys(ne)[j] == k);
                    }
                    if k == key {
                        assert(entry_keys(ne)[old_entries.len() as int] == k);
                    }
                }
                assert forall|k: [u8; 32]| #[trigger]
                    entries_map(ne).dom().contains(k) implies entries_map(ne)[k] == old(
                    self,
                )@.insert(key, value)[k] by {
                    let j = entry_keys(ne).index_of(k);
                    assert(entry_keys(ne)[j] == k);
                    lemma_index_of_unique(ne, j);
                    if j < old_entries.len() {
                        assert(ne[j] == old_entries[j]);
                        lemma_index_of_unique(old_entries, j);
                    }
                }
                assert(self@ =~= old(self)@.insert(key, value));
            },
        }
    }

    /// Removes the key and its value, if present; the other keys keep their order.
    pub fn remove(&mut self, key: &[u8; 32])
        requires
            old(self).wf(),
        ensures
            final(self).wf(),
            final(self)@ == old(self)@.remove(*key),
    {
        let ghost old_entries = self.entries@;
        match self.find(key) {
            Some(i) => {
                proof {
                    lemma_index_of_unique(old_entries, i as int);
                }
                self.entries.remove(i);
                let ghost ne = self.entries@;
                assert(ne =~= old_entries.remove(i as int));
                assert(entry_keys(ne) =~= entry_keys(old_entries).remove(i as int));
                assert forall|a: int, b: int|
                    0 <= a < b < entry_keys(ne).len() implies entry_keys(ne)[a] != entry_keys(
                    ne,
                )[b] by {
                    let oa = if a < i { a } else { a + 1 };
                    let ob = if b < i { b } else { b + 1 };
                    assert(entry_keys(ne)[a] == entry_keys(old_entries)[oa]);
                    assert(entry_keys(ne)[b] == entry_keys(old_entries)[ob]);
                }
                assert forall|k: [u8; 32]|
                    entries_map(ne).dom().contains(k) <==> #[trigger] old(self)@.remove(
                        *key,
                    ).dom().contains(k) by {
                    if entry_keys(ne).contains(k) {
                        let j = entry_keys(ne).index_of(k);
                        let oj = if j < i { j } else { j + 1 };
                        assert(entry_keys(old_entries)[oj] == k);
                        assert(oj != i);
                    }
                    if old(self)@.remove(*key).dom().contains(k) {
                        let j = entry_keys(old_entries).index_of(k);
                        assert(entry_keys(old_entries)[j] == k);
                        assert(j != i);
                        let nj = if j < i { j } else { j - 1 };
                        assert(entry_keys(ne)[nj] == k);
                    }
                }
                assert forall|k: [u8; 32]| #[trigger]
                    entries_map(ne).dom().contains(k) implies entries_map(ne)[k] == old(
                    self,
                )@.remove(*key)[k] by {
                    let j = entry_keys(ne).index_of(k);
                    assert(entry_keys(ne)[j] == k);
                    lemma_index_of_unique(ne, j);
                    let oj = if j < i { j } else { j + 1 };
                    assert(ne[j] == old_entries[oj]);
                    lemma_index_of_unique(old_entries, oj);
                }
                assert(self@ =~= old(self)@.remove(*key));
            },
            None => {
                assert(old(self)@.remove(*key) =~= old(self)@);
            },
        }
    }

    /// The key stored at position `i` of the storage order.
    pub fn key_at(&self, i: usize) -> (k: &[u8; 32])
        requires
            self.wf(),
            i < self.order().len(),
        ensures
            *k == self.order()[i as int],
    {
        &self.entries[i].0
    }

    /// The value stored at position `i` of the storage order.
    pub fn value_at(&self, i: usize) -> (v: &V)
        requires
            self.wf(),
            i < self.order().len(),
        ensures
            self@.dom().contains(self.order()[i as int]),
            *v == self@[self.order()[i as int]],
    {
        proof {
            lemma_index_of_unique(self.entries@, i as int);
        }
        &self.entries[i].1
    }
}

proof fn proof_index_for_key<V>(entries: Seq<([u8; 32], V)>, j: int)
    requires
        entry_keys(entries).no_duplicates(),
        0 <= j < entries.len(),
    ensures
        entry_keys(entries).index_of(entries[j].0) == j,
{
    lemma_index_of_unique(entries, j);
}

} // verus!
