//! A small map that is kept in a vector: entries with pairwise distinct keys.
//!
//! It stands where a hash map would, for keys that are compared by their
//! views, and is seen in contracts as the `Map` from key views to values.

use vstd::prelude::*;

verus! {

/// A key that can be compared: `same` decides whether two keys have one view.
pub trait Key: View + Sized {
    fn same(&self, other: &Self) -> (eq: bool)
        ensures
            eq == (self@ == other@),
    ;
}

impl Key for String {
    fn same(&self, other: &Self) -> (eq: bool) {
        *self == *other
    }
}

/// A map from keys to values.
pub struct Table<K: Key, V> {
    entries: Vec<(K, V)>,
}

/// Whether entry `i` of `entries` has the key `key`.
pub open spec fn holds_at<K: Key, V>(entries: Seq<(K, V)>, key: K::V, i: int) -> bool {
    0 <= i < entries.len() && entries[i].0@ == key
}

/// Whether the keys of `entries` are pairwise distinct.
pub open spec fn distinct_keys<K: Key, V>(entries: Seq<(K, V)>) -> bool {
    forall|i: int, j: int|
        0 <= i < j < entries.len() ==> (#[trigger] entries[i]).0@ != (#[trigger] entries[j]).0@
}

/// The map that `entries` stand for.
pub open spec fn map_of<K: Key, V>(entries: Seq<(K, V)>) -> Map<K::V, V> {
    Map::new(
        |key: K::V| exists|i: int| holds_at(entries, key, i),
        |key: K::V| entries[choose|i: int| holds_at(entries, key, i)].1,
    )
}

/// Each entry is in the map, where the keys are distinct.
pub proof fn lemma_entry_in_map<K: Key, V>(entries: Seq<(K, V)>, i: int)
    requires
        distinct_keys(entries),
        0 <= i < entries.len(),
    ensures
        map_of(entries).contains_key(entries[i].0@),
        map_of(entries)[entries[i].0@] == entries[i].1,
{
    let key = entries[i].0@;
    assert(holds_at(entries, key, i));
    let j = choose|j: int| holds_at(entries, key, j);
    if i < j {
        assert(entries[i].0@ != entries[j].0@);
    } else if j < i {
        assert(entries[j].0@ != entries[i].0@);
    }
}

/// Each key of the map has its entry.
pub proof fn lemma_map_has_entry<K: Key, V>(entries: Seq<(K, V)>, key: K::V) -> (i: int)
    requires
        map_of(entries).contains_key(key),
    ensures
        holds_at(entries, key, i),
        map_of(entries)[key] == entries[i].1,
{
    choose|i: int| holds_at(entries, key, i)
}

/// Adding an entry with a new key inserts it into the map.
pub proof fn lemma_push<K: Key, V>(entries: Seq<(K, V)>, key: K, value: V)
    requires
        distinct_keys(entries),
        !map_of(entries).contains_key(key@),
    ensures
        distinct_keys(entries.push((key, value))),
        map_of(entries.push((key, value))) == map_of(entries).insert(key@, value),
{
    let after = entries.push((key, value));
    assert forall|i: int, j: int| 0 <= i < j < after.len() implies (#[trigger] after[i]).0@ != (
    #[trigger] after[j]).0@ by {
        if j == entries.len() {
            assert(holds_at(entries, after[i].0@, i));
        } else {
            assert(entries[i].0@ != entries[j].0@);
        }
    }
    assert forall|k: K::V| map_of(after).contains_key(k) <==> map_of(entries).insert(
        key@,
        value,
    ).contains_key(k) by {
        if map_of(after).contains_key(k) {
            let i = choose|i: int| holds_at(after, k, i);
            if i < entries.len() {
                assert(holds_at(entries, k, i));
            }
        }
        if map_of(entries).contains_key(k) {
            let i = choose|i: int| holds_at(entries, k, i);
            assert(holds_at(after, k, i));
        }
        if k == key@ {
            assert(holds_at(after, k, entries.len() as int));
        }
    }
    assert forall|k: K::V| map_of(after).contains_key(k) implies map_of(after)[k] == map_of(
        entries,
    ).insert(key@, value)[k] by {
        let i = choose|i: int| holds_at(after, k, i);
        lemma_entry_in_map(after, i);
        if i < entries.len() {
            assert(holds_at(entries, k, i));
            lemma_entry_in_map(entries, i);
        }
    }
    assert(map_of(after) =~= map_of(entries).insert(key@, value));
}

/// Giving an entry a new value updates the map at its key.
pub proof fn lemma_update<K: Key, V>(entries: Seq<(K, V)>, i: int, key: K, value: V)
    requires
        distinct_keys(entries),
        0 <= i < entries.len(),
        entries[i].0@ == key@,
    ensures
        distinct_keys(entries.update(i, (key, value))),
        map_of(entries.update(i, (key, value))) == map_of(entries).insert(key@, value),
{
    let after = entries.update(i, (key, value));
    assert forall|a: int, b: int| 0 <= a < b < after.len() implies (#[trigger] after[a]).0@ != (
    #[trigger] after[b]).0@ by {
        assert(entries[a].0@ != entries[b].0@);
    }
    assert forall|k: K::V| map_of(after).contains_key(k) <==> map_of(entries).insert(
        key@,
        value,
    ).contains_key(k) by {
        if map_of(after).contains_key(k) {
            let j = choose|j: int| holds_at(after, k, j);
            assert(holds_at(entries, k, j));
        }
        if map_of(entries).contains_key(k) {
            let j = choose|j: int| holds_at(entries, k, j);
            assert(holds_at(after, k, j));
        }
        if k == key@ {
            assert(holds_at(after, k, i));
        }
    }
    assert forall|k: K::V| map_of(after).contains_key(k) implies map_of(after)[k] == map_of(
        entries,
    ).insert(key@, value)[k] by {
        let j = choose|j: int| holds_at(after, k, j);
        lemma_entry_in_map(after, j);
        assert(holds_at(entries, k, j));
        lemma_entry_in_map(entries, j);
        if j != i {
            if i < j {
                assert(entries[i].0@ != entries[j].0@);
            } else {
                assert(entries[j].0@ != entries[i].0@);
            }
        }
    }
    assert(map_of(after) =~= map_of(entries).insert(key@, value));
}

/// Taking an entry out removes its key from the map.
pub proof fn lemma_remove<K: Key, V>(entries: Seq<(K, V)>, i: int)
    requires
        distinct_keys(entries),
        0 <= i < entries.len(),
    ensures
        distinct_keys(entries.remove(i)),
        map_of(entries.remove(i)) == map_of(entries).remove(entries[i].0@),
{
    let after = entries.remove(i);
    let key = entries[i].0@;
    assert forall|a: int, b: int| 0 <= a < b < after.len() implies (#[trigger] after[a]).0@ != (
    #[trigger] after[b]).0@ by {
        let a0 = if a < i { a } else { a + 1 };
        let b0 = if b < i { b } else { b + 1 };
        assert(entries[a0].0@ != entries[b0].0@);
    }
    assert forall|k: K::V| map_of(after).contains_key(k) <==> map_of(entries).remove(
        key,
    ).contains_key(k) by {
        if map_of(after).contains_key(k) {
            let j = choose|j: int| holds_at(after, k, j);
            let j0 = if j < i { j } else { j + 1 };
            assert(holds_at(entries, k, j0));
            if j0 < i {
                assert(entries[j0].0@ != entries[i].0@);
            } else {
                assert(entries[i].0@ != entries[j0].0@);
            }
        }
        if map_of(entries).contains_key(k) && k != key {
            let j = choose|j: int| holds_at(entries, k, j);
            let j1 = if j < i { j } else { j - 1 };
            assert(holds_at(after, k, j1));
        }
    }
    assert forall|k: K::V| map_of(after).contains_key(k) implies map_of(after)[k] == map_of(
        entries,
    ).remove(key)[k] by {
        let j = choose|j: int| holds_at(after, k, j);
        lemma_entry_in_map(after, j);
        let j0 = if j < i { j } else { j + 1 };
        assert(holds_at(entries, k, j0));
        lemma_entry_in_map(entries, j0);
    }
    assert(map_of(after) =~= map_of(entries).remove(key));
}

/// The map without the entries whose value reads `value`.
pub open spec fn without_value<A>(map: Map<A, String>, value: Seq<char>) -> Map<A, String> {
    Map::new(|key: A| map.contains_key(key) && map[key]@ != value, |key: A| map[key])
}

impl<K: Key, V> Table<K, V> {
    /// The entries, in the order in which the table keeps them.
    pub closed spec fn entries(&self) -> Seq<(K, V)> {
        self.entries@
    }

    /// The keys of a table are pairwise distinct.
    pub open spec fn wf(&self) -> bool {
        distinct_keys(self.entries())
    }

    /// The map that the table stands for.
    pub open spec fn map(&self) -> Map<K::V, V> {
        map_of(self.entries())
    }

    /// An empty table.
    pub fn new() -> (table: Self)
        ensures
            table.wf(),
            table.entries() == Seq::<(K, V)>::empty(),
            table.map() == Map::<K::V, V>::empty(),
    {
        let table = Table { entries: Vec::new() };
        assert(table.map() =~= Map::<K::V, V>::empty());
        table
    }

    /// The number of entries.
    pub fn len(&self) -> (n: usize)
        ensures
            n == self.entries().len(),
    {
        self.entries.len()
    }

    /// The key of entry `i`.
    pub fn key_at(&self, i: usize) -> (key: &K)
        requires
            i < self.entries().len(),
        ensures
            *key == self.entries()[i as int].0,
    {
        &self.entries[i].0
    }

    /// The value of entry `i`.
    pub fn value_at(&self, i: usize) -> (value: &V)
        requires
            i < self.entries().len(),
        ensures
            *value == self.entries()[i as int].1,
    {
        &self.entries[i].1
    }

    /// The index of the entry with the key `key`.
    pub fn position(&self, key: &K) -> (r: Option<usize>)
        ensures
            match r {
                Some(i) => holds_at(self.entries(), key@, i as int),
                None => forall|i: int| !holds_at(self.entries(), key@, i),
            },
            r is Some <==> self.map().contains_key(key@),
    {
        let mut i: usize = 0;
        while i < self.entries.len()
            invariant
                i <= self.entries@.len(),
                forall|j: int| 0 <= j < i ==> !holds_at(self.entries@, key@, j),
            decreases self.entries@.len() - i,
        {
            if self.entries[i].0.same(key) {
                assert(holds_at(self.entries@, key@, i as int));
                return Some(i);
            }
            i += 1;
        }
        None
    }

    /// The value under `key`.
    pub fn get(&self, key: &K) -> (r: Option<&V>)
        requires
            self.wf(),
        ensures
            match r {
                Some(value) => self.map().contains_key(key@) && *value == self.map()[key@],
                None => !self.map().contains_key(key@),
            },
    {
        match self.position(key) {
            Some(i) => {
                proof {
                    lemma_entry_in_map(self.entries@, i as int);
                }
                Some(&self.entries[i].1)
            },
            None => None,
        }
    }

    /// Puts `value` under `key`, in place of what was there.
    pub fn insert(&mut self, key: K, value: V)
        requires
            old(self).wf(),
        ensures
            final(self).wf(),
            final(self).map() == old(self).map().insert(key@, value),
    {
        match self.position(&key) {
            Some(i) => {
                proof {
                    lemma_update(self.entries@, i as int, key, value);
                }
                self.entries.set(i, (key, value));
            },
            None => {
                proof {
                    lemma_push(self.entries@, key, value);
                }
                self.entries.push((key, value));
            },
        }
    }

    /// Takes out what is under `key`.
    pub fn remove(&mut self, key: &K) -> (r: Option<V>)
        requires
            old(self).wf(),
        ensures
            final(self).wf(),
            final(self).map() == old(self).map().remove(key@),
            match r {
                Some(value) => old(self).map().contains_key(key@) && value == old(self).map()[key@],
                None => !old(self).map().contains_key(key@),
            },
    {
        match self.position(key) {
            Some(i) => {
                proof {
                    lemma_entry_in_map(self.entries@, i as int);
                    lemma_remove(self.entries@, i as int);
                }
                let (_, value) = self.entries.remove(i);
                Some(value)
            },
            None => {
                assert(old(self).map().remove(key@) =~= old(self).map());
                None
            },
        }
    }
}

impl<K: Key> Table<K, String> {
    /// Takes out every entry whose value reads as `value` does.
    pub fn remove_value(&mut self, value: &String)
        requires
            old(self).wf(),
        ensures
            final(self).wf(),
            final(self).map() == without_value(old(self).map(), value@),
    {
        let mut i: usize = 0;
        while i < self.entries.len()
            invariant
                i <= self.entries@.len(),
                distinct_keys(self.entries@),
                forall|j: int| 0 <= j < i ==> (#[trigger] self.entries@[j]).1@ != value@,
                forall|key: K::V| #[trigger]
                    map_of(self.entries@).contains_key(key) ==> old(self).map().contains_key(key)
                        && map_of(self.entries@)[key] == old(self).map()[key],
                forall|key: K::V|
                    old(self).map().contains_key(key) && old(self).map()[key]@ != value@
                        ==> #[trigger] map_of(self.entries@).contains_key(key),
            decreases self.entries@.len() - i,
        {
            if self.entries[i].1 == *value {
                proof {
                    lemma_entry_in_map(self.entries@, i as int);
                    lemma_remove(self.entries@, i as int);
                }
                self.entries.remove(i);
            } else {
                i += 1;
            }
        }
        proof {
            assert forall|key: K::V| #[trigger]
                map_of(self.entries@).contains_key(key) implies map_of(self.entries@)[key]@
                != value@ by {
                let j = lemma_map_has_entry(self.entries@, key);
                assert(self.entries@[j].1@ != value@);
            }
            assert(map_of(self.entries@) =~= without_value(old(self).map(), value@));
        }
    }
}

} // verus!
