//! A table of entries, looked up by key: each key occurs at most once, and
//! entries stay in the order in which their keys were first inserted.

use vstd::prelude::*;

verus! {

/// # A value that entries of a table are looked up by
pub trait Key: Sized {
    /// # Whether two keys are the same
    fn same_key(&self, other: &Self) -> (result: bool)
        ensures
            result == (*self == *other),
    ;

    /// # A copy of the key
    fn copy_key(&self) -> (result: Self)
        ensures
            result == *self,
    ;
}

/// Whether no key occurs twice among the entries
pub open spec fn keys_unique<K, V>(entries: Seq<(K, V)>) -> bool {
    forall|i: int, j: int|
        0 <= i < entries.len() && 0 <= j < entries.len() && i != j ==> entries[i].0 != entries[j].0
}

/// Whether an entry with the given key exists
pub open spec fn has_key<K, V>(entries: Seq<(K, V)>, key: K) -> bool {
    exists|i: int| 0 <= i < entries.len() && entries[i].0 == key
}

/// The index of an entry with the given key
pub open spec fn key_index<K, V>(entries: Seq<(K, V)>, key: K) -> int {
    choose|i: int| 0 <= i < entries.len() && entries[i].0 == key
}

/// The entries, as a map from keys to values
pub open spec fn as_map<K, V>(entries: Seq<(K, V)>) -> Map<K, V> {
    Map::new(|key: K| has_key(entries, key), |key: K| entries[key_index(entries, key)].1)
}

/// With unique keys, the entry at `i` is the one found by its key
pub proof fn lemma_key_index<K, V>(entries: Seq<(K, V)>, i: int)
    requires
        keys_unique(entries),
        0 <= i < entries.len(),
    ensures
        has_key(entries, entries[i].0),
        key_index(entries, entries[i].0) == i,
{
    assert(0 <= i < entries.len() && entries[i].0 == entries[i].0);
}

/// # A table of entries, looked up by key
#[derive(Debug)]
pub struct Table<K, V> {
    entries: Vec<(K, V)>,
}

impl<K, V> Table<K, V> {
    #[verifier::type_invariant]
    closed spec fn wf(&self) -> bool {
        keys_unique(self.entries@)
    }
}

impl<K: Key, V> Table<K, V> {
    /// The entries, in order
    pub closed spec fn entries(&self) -> Seq<(K, V)> {
        self.entries@
    }

    /// The entries, as a map from keys to values
    pub open spec fn view(&self) -> Map<K, V> {
        as_map(self.entries())
    }

    /// # An empty table
    pub fn new() -> (result: Self)
        ensures
            result.entries() == Seq::<(K, V)>::empty(),
            result.view() == Map::<K, V>::empty(),
    {
        let result = Table { entries: Vec::new() };
        assert(result.view() =~= Map::<K, V>::empty());
        result
    }

    /// # The number of entries
    ///
    /// No key occurs twice among the entries.
    pub fn len(&self) -> (result: usize)
        ensures
            result == self.entries().len(),
            keys_unique(self.entries()),
    {
        proof {
            use_type_invariant(self);
        }
        self.entries.len()
    }

    /// # The entry at the given index
    pub fn entry_at(&self, index: usize) -> (result: &(K, V))
        requires
            index < self.entries().len(),
        ensures
            *result == self.entries()[index as int],
    {
        &self.entries[index]
    }

    /// # The index of the entry with the given key
    pub fn find(&self, key: &K) -> (result: Option<usize>)
        ensures
            match result {
                Some(i) => has_key(self.entries(), *key) && i == key_index(self.entries(), *key),
                None => !has_key(self.entries(), *key),
            },
            keys_unique(self.entries()),
    {
        proof {
            use_type_invariant(self);
        }
        let mut i: usize = 0;
        while i < self.entries.len()
            invariant
                i <= self.entries@.len(),
                keys_unique(self.entries@),
                forall|j: int| 0 <= j < i ==> self.entries@[j].0 != *key,
            decreases self.entries@.len() - i,
        {
            if self.entries[i].0.same_key(key) {
                proof {
                    lemma_key_index(self.entries@, i as int);
                }
                return Some(i);
            }
            i = i + 1;
        }
        None
    }

    /// # The value with the given key
    pub fn get(&self, key: &K) -> (result: Option<&V>)
        ensures
            match result {
                Some(value) => self.view().contains_key(*key) && *value == self.view()[*key],
                None => !self.view().contains_key(*key),
            },
    {
        match self.find(key) {
            Some(i) => Some(&self.entries[i].1),
            None => None,
        }
    }

    /// # Set the value of the given key
    ///
    /// Replaces the value of an existing entry in place, or appends a new
    /// entry.
    pub fn insert(&mut self, key: K, value: V)
        ensures
            final(self).view() == old(self).view().insert(key, value),
    {
        let found = self.find(&key);
        let ghost before = self.entries@;
        match found {
            Some(i) => {
                let mut entries = Vec::new();
                std::mem::swap(&mut entries, &mut self.entries);
                entries.set(i, (key, value));
                assert forall|a: int, b: int|
                    0 <= a < entries@.len() && 0 <= b < entries@.len() && a != b implies entries@[a].0
                    != entries@[b].0 by {
                    assert(entries@[a].0 == before[a].0 && entries@[b].0 == before[b].0);
                }
                self.entries = entries;
                proof {
                    lemma_key_index(self.entries@, i as int);
                    assert forall|k: K| #[trigger] has_key(self.entries@, k) == (has_key(before, k) || k == key) by {
                        if has_key(before, k) {
                            let j = key_index(before, k);
                            assert(self.entries@[j].0 == k);
                        }
                        if has_key(self.entries@, k) {
                            let j = key_index(self.entries@, k);
                            assert(before[j].0 == k);
                        }
                    }
                    assert forall|k: K| has_key(before, k) && k != key implies #[trigger] key_index(self.entries@, k) == key_index(before, k) by {
                        let j = key_index(before, k);
                        lemma_key_index(self.entries@, j);
                    }
                    assert(self.view() =~= as_map(before).insert(key, value));
                }
            },
            None => {
                let ghost k0 = key;
                let mut entries = Vec::new();
                std::mem::swap(&mut entries, &mut self.entries);
                entries.push((key, value));
                proof {
                    let n = before.len() as int;
                    assert forall|a: int, b: int|
                        0 <= a < entries@.len() && 0 <= b < entries@.len() && a != b implies entries@[a].0
                        != entries@[b].0 by {
                        if a == n {
                            assert(!(0 <= b < before.len() && before[b].0 == k0));
                        } else if b == n {
                            assert(!(0 <= a < before.len() && before[a].0 == k0));
                        }
                    }
                }
                self.entries = entries;
                proof {
                    let n = before.len() as int;
                    lemma_key_index(self.entries@, n);
                    assert forall|k: K| #[trigger] has_key(self.entries@, k) == (has_key(before, k) || k == k0) by {
                        if has_key(before, k) {
                            let j = key_index(before, k);
                            assert(self.entries@[j].0 == k);
                        }
                    }
                    assert forall|k: K| has_key(before, k) && k != k0 implies #[trigger] key_index(self.entries@, k) == key_index(before, k) by {
                        let j = key_index(before, k);
                        lemma_key_index(self.entries@, j);
                    }
                    assert(self.view() =~= as_map(before).insert(k0, value));
                }
            },
        }
    }

    /// # Remove the entry with the given key, and return its value
    pub fn remove(&mut self, key: &K) -> (result: Option<V>)
        ensures
            match result {
                Some(value) => old(self).view().contains_key(*key) && value == old(self).view()[*key],
                None => !old(self).view().contains_key(*key),
            },
            final(self).view() == old(self).view().remove(*key),
    {
        let found = self.find(key);
        let ghost before = self.entries@;
        match found {
            Some(i) => {
                let mut entries = Vec::new();
                std::mem::swap(&mut entries, &mut self.entries);
                let (_, value) = entries.remove(i);
                assert forall|a: int, b: int|
                    0 <= a < entries@.len() && 0 <= b < entries@.len() && a != b implies entries@[a].0
                    != entries@[b].0 by {
                    let a0 = if a < i { a } else { a + 1 };
                    let b0 = if b < i { b } else { b + 1 };
                    assert(entries@[a] == before[a0] && entries@[b] == before[b0]);
                }
                self.entries = entries;
                proof {
                    assert forall|k: K| #[trigger] has_key(self.entries@, k) == (has_key(before, k) && k != *key) by {
                        if has_key(before, k) && k != *key {
                            let j = key_index(before, k);
                            if j < i {
                                assert(self.entries@[j].0 == k);
                            } else {
                                assert(self.entries@[j - 1].0 == k);
                            }
                        }
                        if has_key(self.entries@, k) {
                            let j = key_index(self.entries@, k);
                            if j < i {
                                assert(before[j].0 == k);
                            } else {
                                assert(before[j + 1].0 == k);
                            }
                        }
                    }
                    assert forall|k: K| has_key(self.entries@, k) implies #[trigger] self.entries@[key_index(self.entries@, k)].1 == before[key_index(before, k)].1 by {
                        let j = key_index(self.entries@, k);
                        if j < i {
                            lemma_key_index(before, j);
                        } else {
                            lemma_key_index(before, j + 1);
                        }
                    }
                    assert(self.view() =~= as_map(before).remove(*key));
                }
                Some(value)
            },
            None => {
                assert(self.view() =~= as_map(before).remove(*key));
                None
            },
        }
    }
}

} // verus!
