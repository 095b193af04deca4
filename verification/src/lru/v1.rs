//! The cache as a vector of entries in recency order.
use vstd::prelude::*;

use vstd::laws_eq::obeys_concrete_eq;

verus! {

/// No key occurs twice among `entries`.
pub open spec fn keys_distinct<K, V>(entries: Seq<(K, V)>) -> bool {
    forall|i: int, j: int| 0 <= i < j < entries.len() ==> entries[i].0 != entries[j].0
}

pub open spec fn holds_key<K, V>(entries: Seq<(K, V)>, key: K) -> bool {
    exists|i: int| 0 <= i < entries.len() && entries[i].0 == key
}

/// Where `key` stands among `entries` (meaningful where it is held).
pub open spec fn key_index<K, V>(entries: Seq<(K, V)>, key: K) -> int {
    choose|i: int| 0 <= i < entries.len() && entries[i].0 == key
}

/// The value held for `key`, if any.
pub open spec fn value_for<K, V>(entries: Seq<(K, V)>, key: K) -> Option<V> {
    if holds_key(entries, key) {
        Some(entries[key_index(entries, key)].1)
    } else {
        None
    }
}

/// The entries, least recently used first, after looking `key` up: a held
/// key becomes the most recently used.
pub open spec fn after_get<K, V>(entries: Seq<(K, V)>, key: K) -> Seq<(K, V)> {
    if holds_key(entries, key) {
        let i = key_index(entries, key);
        entries.remove(i).push(entries[i])
    } else {
        entries
    }
}

/// The entries after storing `value` under `key` in a cache of `capacity`:
/// the key becomes the most recently used; a held key loses its old value,
/// and a new key in a full cache evicts the least recently used entry.
pub open spec fn after_put<K, V>(entries: Seq<(K, V)>, capacity: nat, key: K, value: V) -> Seq<
    (K, V),
> {
    if holds_key(entries, key) {
        entries.remove(key_index(entries, key)).push((key, value))
    } else if entries.len() == capacity {
        entries.drop_first().push((key, value))
    } else {
        entries.push((key, value))
    }
}

/// The shape every cache keeps: a positive capacity, no more entries than
/// that, and no key twice.
pub open spec fn cache_shape<K, V>(entries: Seq<(K, V)>, capacity: nat) -> bool {
    &&& capacity > 0
    &&& entries.len() <= capacity
    &&& keys_distinct(entries)
}

/// The keys of `entries`, in order.
pub open spec fn keys_of<K, V>(entries: Seq<(K, V)>) -> Seq<K> {
    entries.map_values(|e: (K, V)| e.0)
}

/// Entries whose keys are distinct are exactly as many as their keys.
pub proof fn lemma_count_is_distinct_keys<K, V>(entries: Seq<(K, V)>)
    requires
        keys_distinct(entries),
    ensures
        entries.len() == keys_of(entries).to_set().len(),
{
    let ks = keys_of(entries);
    assert forall|i: int, j: int| 0 <= i < ks.len() && 0 <= j < ks.len() && i != j implies ks[i]
        != ks[j] by {
        if i < j {
            assert(entries[i].0 != entries[j].0);
        } else {
            assert(entries[j].0 != entries[i].0);
        }
    }
    assert(ks.no_duplicates());
    ks.unique_seq_to_set();
}

/// A value stored under a key is what a lookup of that key then finds.
pub proof fn lemma_get_after_put<K, V>(entries: Seq<(K, V)>, capacity: nat, key: K, value: V)
    requires
        cache_shape(entries, capacity),
    ensures
        cache_shape(after_put(entries, capacity, key, value), capacity),
        value_for(after_put(entries, capacity, key, value), key) == Some(value),
{
    let after = after_put(entries, capacity, key, value);
    let n = after.len() - 1;
    assert(after[n] == (key, value));
    let mid = after.drop_last();
    assert forall|i: int| 0 <= i < mid.len() implies mid[i].0 != key by {
        if holds_key(entries, key) {
            let k = key_index(entries, key);
            let oi = if i < k { i } else { i + 1 };
            assert(mid[i] == entries[oi]);
        } else if entries.len() == capacity {
            assert(mid[i] == entries[i + 1]);
        } else {
            assert(mid[i] == entries[i]);
        }
    }
    assert forall|i: int, j: int| 0 <= i < j < after.len() implies after[i].0 != after[j].0 by {
        if j < n {
            if holds_key(entries, key) {
                let k = key_index(entries, key);
                let oi = if i < k { i } else { i + 1 };
                let oj = if j < k { j } else { j + 1 };
                assert(after[i] == entries[oi] && after[j] == entries[oj]);
            } else if entries.len() == capacity {
                assert(after[i] == entries[i + 1] && after[j] == entries[j + 1]);
            } else {
                assert(after[i] == entries[i] && after[j] == entries[j]);
            }
        } else {
            assert(after[i] == mid[i]);
        }
    }
    assert(holds_key(after, key));
    let k = key_index(after, key);
    if k != n {
        assert(after[k].0 != after[n].0);
    }
}

/// Looking a key up changes only the order of the entries: every key maps
/// to the value it mapped to before.
pub proof fn lemma_get_keeps_contents<K, V>(entries: Seq<(K, V)>, capacity: nat, key: K, other: K)
    requires
        cache_shape(entries, capacity),
    ensures
        cache_shape(after_get(entries, key), capacity),
        value_for(after_get(entries, key), other) == value_for(entries, other),
{
    let after = after_get(entries, key);
    if holds_key(entries, key) {
        let k = key_index(entries, key);
        let n = entries.len() - 1;
        let from = |i: int| if i < k { i } else if i < n { i + 1 } else { k };
        assert forall|i: int| 0 <= i < after.len() implies after[i] == entries[from(i)] by {}
        assert forall|i: int, j: int| 0 <= i < j < after.len() implies after[i].0
            != after[j].0 by {
            assert(after[i] == entries[from(i)] && after[j] == entries[from(j)]);
        }
        if holds_key(entries, other) {
            let o = key_index(entries, other);
            let to = if o < k { o } else if o == k { n } else { o - 1 };
            assert(after[to] == entries[o]);
            let a = key_index(after, other);
            if a != to {
                assert(after[a].0 != after[to].0);
            }
        } else {
            if holds_key(after, other) {
                let a = key_index(after, other);
                assert(after[a] == entries[from(a)]);
            }
        }
    }
}

/// A new key stored in a full cache evicts the least recently used entry,
/// and only that one.
pub proof fn lemma_put_evicts_least_recent<K, V>(
    entries: Seq<(K, V)>,
    capacity: nat,
    key: K,
    value: V,
)
    requires
        cache_shape(entries, capacity),
        !holds_key(entries, key),
        entries.len() == capacity,
    ensures
        !holds_key(after_put(entries, capacity, key, value), entries[0].0),
        after_put(entries, capacity, key, value).len() == capacity,
        forall|i: int|
            1 <= i < entries.len() ==> #[trigger] holds_key(
                after_put(entries, capacity, key, value),
                entries[i].0,
            ),
{
    let after = after_put(entries, capacity, key, value);
    assert(after =~= entries.drop_first().push((key, value)));
    if holds_key(after, entries[0].0) {
        let a = key_index(after, entries[0].0);
        if a < after.len() - 1 {
            assert(after[a] == entries[a + 1]);
        } else {
            assert(entries[0].0 == key);
        }
    }
    assert forall|i: int| 1 <= i < entries.len() implies #[trigger] holds_key(after, entries[i].0) by {
        assert(after[i - 1] == entries[i]);
    }
}

/// A cache holding at most `capacity` entries, least recently used first.
pub struct LruCache<K, V> {
    capacity: usize,
    entries: Vec<(K, V)>,
}

impl<K, V> View for LruCache<K, V> {
    type V = Seq<(K, V)>;

    /// The entries, least recently used first.
    closed spec fn view(&self) -> Seq<(K, V)> {
        self.entries@
    }
}

impl<K: PartialEq, V> LruCache<K, V> {
    /// The most entries the cache holds.
    pub closed spec fn limit(&self) -> nat {
        self.capacity as nat
    }

    /// The cache keeps its shape, and `==` on its keys is equality.
    pub closed spec fn wf(&self) -> bool {
        &&& obeys_concrete_eq::<K>()
        &&& cache_shape(self.entries@, self.capacity as nat)
    }

    /// A well-formed cache has a positive limit, holds no more entries than
    /// that, holds no key twice, and so holds as many entries as distinct
    /// keys.
    pub proof fn lemma_shape(&self)
        requires
            self.wf(),
        ensures
            cache_shape(self@, self.limit()),
            self@.len() == keys_of(self@).to_set().len(),
    {
        lemma_count_is_distinct_keys(self@);
    }

    /// An empty cache that holds at most `capacity` entries.
    pub fn new(capacity: usize) -> (cache: LruCache<K, V>)
        requires
            capacity > 0,
            obeys_concrete_eq::<K>(),
        ensures
            cache.wf(),
            cache@ == Seq::<(K, V)>::empty(),
            cache.limit() == capacity,
    {
        LruCache { capacity, entries: Vec::new() }
    }

    /// Where `key` stands among the entries, if it is held.
    fn position(&self, key: &K) -> (r: Option<usize>)
        requires
            self.wf(),
        ensures
            r matches Some(i) ==> holds_key(self@, *key) && i == key_index(self@, *key),
            r is None ==> !holds_key(self@, *key),
    {
        proof {
            reveal(obeys_concrete_eq);
        }
        let mut i: usize = 0;
        while i < self.entries.len()
            invariant
                self.wf(),
                i <= self.entries@.len(),
                forall|j: int| 0 <= j < i ==> self.entries@[j].0 != *key,
            decreases self.entries@.len() - i,
        {
            proof {
                reveal(obeys_concrete_eq);
            }
            let found = self.entries[i].0 == *key;
            assert(found == (self.entries@[i as int].0 == *key));
            if found {
                proof {
                    let k = key_index(self@, *key);
                    assert(0 <= k < self@.len() && self@[k].0 == *key);
                    if k != i {
                        assert(self@[k].0 != self@[i as int].0);
                    }
                }
                return Some(i);
            }
            i = i + 1;
        }
        None
    }

    /// The value held for `key`, which becomes the most recently used.
    pub fn get(&mut self, key: &K) -> (r: Option<&V>)
        requires
            old(self).wf(),
        ensures
            final(self).wf(),
            final(self).limit() == old(self).limit(),
            final(self)@ == after_get(old(self)@, *key),
            r matches Some(v) ==> value_for(old(self)@, *key) == Some(*v),
            r is None ==> value_for(old(self)@, *key) is None,
    {
        let index = match self.position(key) {
            Some(index) => index,
            None => {
                return None;
            },
        };
        let ghost before = self.entries@;
        let entry = self.entries.remove(index);
        self.entries.push(entry);
        proof {
            assert(self.entries@ =~= before.remove(index as int).push(before[index as int]));
            let after = self.entries@;
            assert forall|i: int, j: int| 0 <= i < j < after.len() implies after[i].0
                != after[j].0 by {
                let oi = if i < index { i } else if i < after.len() - 1 { i + 1 } else { index as int };
                let oj = if j < index { j } else if j < after.len() - 1 { j + 1 } else { index as int };
                assert(after[i] == before[oi]);
                assert(after[j] == before[oj]);
            }
        }
        Some(&self.entries.last().unwrap().1)
    }

    /// Stores `value` under `key`, which becomes the most recently used; a
    /// new key in a full cache evicts the least recently used entry.
    pub fn put(&mut self, key: K, value: V)
        requires
            old(self).wf(),
        ensures
            final(self).wf(),
            final(self).limit() == old(self).limit(),
            final(self)@ == after_put(old(self)@, old(self).limit(), key, value),
    {
        let ghost before = self.entries@;
        let ghost kv = (key, value);
        match self.position(&key) {
            Some(index) => {
                self.entries.remove(index);
                assert(self.entries@ =~= before.remove(index as int));
            },
            None => {
                if self.entries.len() == self.capacity {
                    self.entries.remove(0);
                    assert(self.entries@ =~= before.drop_first());
                }
            },
        }
        let ghost mid = self.entries@;
        proof {
            assert forall|i: int| 0 <= i < mid.len() implies mid[i].0 != key by {
                if holds_key(before, key) {
                    let k = key_index(before, key);
                    let oi = if i < k { i } else { i + 1 };
                    assert(mid[i] == before[oi]);
                    assert(before[oi].0 != before[k].0);
                } else if mid.len() < before.len() {
                    assert(mid[i] == before[i + 1]);
                } else {
                    assert(mid[i] == before[i]);
                }
            }
            assert forall|i: int, j: int| 0 <= i < j < mid.len() implies mid[i].0
                != mid[j].0 by {
                if holds_key(before, key) {
                    let k = key_index(before, key);
                    let oi = if i < k { i } else { i + 1 };
                    let oj = if j < k { j } else { j + 1 };
                    assert(mid[i] == before[oi] && mid[j] == before[oj]);
                } else if mid.len() < before.len() {
                    assert(mid[i] == before[i + 1] && mid[j] == before[j + 1]);
                } else {
                    assert(mid[i] == before[i] && mid[j] == before[j]);
                }
            }
        }
        self.entries.push((key, value));
        proof {
            assert(self.entries@ =~= mid.push(kv));
        }
    }

    /// The number of entries held.
    pub fn len(&self) -> (n: usize)
        ensures
            n == self@.len(),
    {
        self.entries.len()
    }

    /// Whether the cache holds no entry.
    pub fn is_empty(&self) -> (b: bool)
        ensures
            b == (self@.len() == 0),
    {
        self.entries.is_empty()
    }
}

} // verus!
