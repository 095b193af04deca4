//! The cache with constant-time steps: a hash map from key to slot, and the
//! slots linked in recency order.
use vstd::prelude::*;

use std::collections::HashMap;
use std::hash::Hash;
use vstd::pervasive::strictly_cloned;
use vstd::std_specs::hash::obeys_key_model;

pub use super::v1::{
    after_get, after_put, cache_shape, holds_key, key_index, keys_of, lemma_count_is_distinct_keys,
    value_for,
};

verus! {

broadcast use vstd::std_specs::hash::group_hash_axioms;

struct Node<K, V> {
    key: K,
    value: V,
    prev: Option<usize>,
    next: Option<usize>,
}

/// The laws the cache relies on for its keys: hashing and `==` agree with
/// equality, and `clone` gives back an equal key.
pub open spec fn key_laws<K: Clone>() -> bool {
    &&& obeys_key_model::<K>()
    &&& forall|a: K, b: K| #[trigger] strictly_cloned(a, b) ==> a == b
}

/// The slots listed in `order` (least recently used first) are linked:
/// `next` points toward the least recently used, `prev` toward the most
/// recently used, `head` is the most recent and `tail` the least.
spec fn linked<K, V>(
    nodes: Seq<Node<K, V>>,
    order: Seq<usize>,
    head: Option<usize>,
    tail: Option<usize>,
) -> bool {
    let n = order.len() as int;
    &&& forall|j: int| 0 <= j < n ==> order[j] < nodes.len()
    &&& forall|i: int, j: int| 0 <= i < j < n ==> order[i] != order[j]
    &&& forall|j: int|
        0 <= j < n ==> (#[trigger] nodes[order[j] as int]).next == (if j > 0 {
            Some(order[j - 1])
        } else {
            None
        })
    &&& forall|j: int|
        0 <= j < n ==> (#[trigger] nodes[order[j] as int]).prev == (if j + 1 < n {
            Some(order[j + 1])
        } else {
            None
        })
    &&& head == (if n > 0 {
        Some(order[n - 1])
    } else {
        None
    })
    &&& tail == (if n > 0 {
        Some(order[0])
    } else {
        None
    })
}

/// The key and value of each slot.
spec fn entries_of<K, V>(nodes: Seq<Node<K, V>>) -> Seq<(K, V)> {
    nodes.map_values(|n: Node<K, V>| (n.key, n.value))
}

/// A cache holding at most `capacity` entries; looking up and storing take
/// constant time.
pub struct LruCache<K, V> {
    capacity: usize,
    map: HashMap<K, usize>,
    nodes: Vec<Node<K, V>>,
    head: Option<usize>,
    tail: Option<usize>,
    order: Ghost<Seq<usize>>,
}

impl<K, V> View for LruCache<K, V> {
    type V = Seq<(K, V)>;

    /// The entries, least recently used first.
    closed spec fn view(&self) -> Seq<(K, V)> {
        Seq::new(
            self.order@.len(),
            |j: int| (self.nodes@[self.order@[j] as int].key, self.nodes@[self.order@[j] as int].value),
        )
    }
}

impl<K: Hash + Eq + Clone, V> LruCache<K, V> {
    /// The most entries the cache holds.
    pub closed spec fn limit(&self) -> nat {
        self.capacity as nat
    }

    /// The cache is well formed: every slot is linked in, the map sends each
    /// key to its slot, and there are no more slots than the capacity.
    pub closed spec fn wf(&self) -> bool {
        let nodes = self.nodes@;
        let order = self.order@;
        &&& key_laws::<K>()
        &&& 0 < self.capacity
        &&& nodes.len() <= self.capacity
        &&& linked(nodes, order, self.head, self.tail)
        &&& order.len() == nodes.len()
        &&& forall|i: usize| i < nodes.len() ==> order.contains(i)
        &&& self.map@.len() == nodes.len()
        &&& forall|i: int|
            0 <= i < nodes.len() ==> self.map@.contains_key(#[trigger] nodes[i].key)
                && self.map@[nodes[i].key] == i
        &&& forall|k: K|
            #[trigger] self.map@.contains_key(k) ==> self.map@[k] < nodes.len()
                && nodes[self.map@[k] as int].key == k
    }

    /// A well-formed cache has a positive limit, holds no more entries than
    /// that, holds no key twice, and so holds as many entries as distinct
    /// keys.
    pub proof fn lemma_shape(&self)
        requires
            self.wf(),
        ensures
            cache_shape(self@, self.limit()),
            self@.len() == keys_of(self@).to_set().len(),
    {
        self.lemma_wf_view();
        lemma_count_is_distinct_keys(self@);
    }

    proof fn lemma_wf_view(&self)
        requires
            self.wf(),
        ensures
            cache_shape(self@, self.limit()),
            forall|k: K|
                #[trigger] holds_key(self@, k) <==> self.map@.contains_key(k),
            forall|k: K|
                #[trigger] self.map@.contains_key(k) ==> self.order@[key_index(self@, k)]
                    == self.map@[k],
    {
        let v = self@;
        let order = self.order@;
        let nodes = self.nodes@;
        assert forall|i: int, j: int| 0 <= i < j < v.len() implies v[i].0 != v[j].0 by {
            assert(v[i].0 == nodes[order[i] as int].key);
            assert(v[j].0 == nodes[order[j] as int].key);
            if nodes[order[i] as int].key == nodes[order[j] as int].key {
                assert(self.map@[nodes[order[i] as int].key] == order[i]);
            }
        }
        assert forall|k: K| #[trigger] holds_key(v, k) <==> self.map@.contains_key(k) by {
            if holds_key(v, k) {
                let i = choose|i: int| 0 <= i < v.len() && v[i].0 == k;
                assert(nodes[order[i] as int].key == k);
            }
            if self.map@.contains_key(k) {
                let s = self.map@[k];
                assert(order.contains(s));
                let j = choose|j: int| 0 <= j < order.len() && order[j] == s;
                assert(v[j].0 == k);
            }
        }
        assert forall|k: K| #[trigger] self.map@.contains_key(k) implies order[key_index(v, k)]
            == self.map@[k] by {
            assert(holds_key(v, k));
            let j = key_index(v, k);
            assert(v[j].0 == nodes[order[j] as int].key);
            assert(self.map@[nodes[order[j] as int].key] == order[j]);
        }
    }

    /// An empty cache that holds at most `capacity` entries.
    pub fn new(capacity: usize) -> (cache: LruCache<K, V>)
        requires
            capacity > 0,
            key_laws::<K>(),
        ensures
            cache.wf(),
            cache@ == Seq::<(K, V)>::empty(),
            cache.limit() == capacity,
    {
        let cache = LruCache {
            capacity,
            map: HashMap::with_capacity(capacity),
            nodes: Vec::with_capacity(capacity),
            head: None,
            tail: None,
            order: Ghost(Seq::empty()),
        };
        assert(cache@ =~= Seq::<(K, V)>::empty());
        cache
    }

    /// The value held for `key`, which becomes the most recently used.
    pub fn get(&mut self, key: &K) -> (r: Option<&V>)
        requires
            old(self).wf(),
        ensures
            final(self).wf(),
            final(self).limit() == old(self).limit(),
            final(self)@ == after_get(old(self)@, *key),
            r matches Some(v) ==> value_for(old(self)@, *key) == Some(*v),
            r is None ==> value_for(old(self)@, *key) is None,
    {
        proof {
            self.lemma_wf_view();
        }
        let index = match self.map.get(key) {
            Some(index) => *index,
            None => {
                return None;
            },
        };
        let ghost s0 = *self;
        let ghost p = choose|p: int| 0 <= p < s0.order@.len() && s0.order@[p] == index;
        proof {
            assert(s0.map@.contains_key(*key) && s0.map@[*key] == index);
            assert(s0.order@.contains(index));
            let k = key_index(s0@, *key);
            assert(s0.order@[k] == index);
            if k != p {
                assert(s0.order@[k] != s0.order@[p]);
            }
        }
        self.move_to_front(index);
        proof {
            self.lemma_moved(s0, index, p);
            assert(entries_of(self.nodes@)[index as int] == entries_of(s0.nodes@)[index as int]);
        }
        Some(&self.nodes[index].value)
    }

    /// Stores `value` under `key`, which becomes the most recently used; a
    /// new key in a full cache evicts the least recently used entry.
    pub fn put(&mut self, key: K, value: V)
        requires
            old(self).wf(),
        ensures
            final(self).wf(),
            final(self).limit() == old(self).limit(),
            final(self)@ == after_put(old(self)@, old(self).limit(), key, value),
    {
        proof {
            self.lemma_wf_view();
        }
        let ghost before = self@;
        let ghost s0 = *self;
        if let Some(found) = self.map.get(&key) {
            let index = *found;
            let ghost p = choose|p: int| 0 <= p < s0.order@.len() && s0.order@[p] == index;
            proof {
                assert(s0.map@.contains_key(key) && s0.map@[key] == index);
                assert(s0.order@.contains(index));
                assert(holds_key(before, key));
                let k = key_index(before, key);
                assert(0 <= k < s0.order@.len());
                assert(s0.order@[k] == index);
                if k != p {
                    assert(s0.order@[k] != s0.order@[p]);
                }
            }
            self.nodes[index].value = value;
            proof {
                self.lemma_value_replaced(s0, index, p);
            }
            let ghost s1 = *self;
            self.move_to_front(index);
            proof {
                self.lemma_moved(s1, index, p);
                assert(s1@.remove(p) =~= before.remove(p));
            }
            return ;
        }
        proof {
            assert(self.map@.len() == self.nodes@.len());
        }
        let index = if self.map.len() == self.capacity {
            let evicted = self.tail.expect("a full cache has a tail");
            proof {
                assert(s0.order@.len() > 0);
                assert(s0.order@.contains(evicted));
            }
            self.unlink(evicted);
            proof {
                let q = choose|q: int| 0 <= q < s0.order@.len() && s0.order@[q] == evicted;
                if q != 0 {
                    assert(s0.order@[q] != s0.order@[0]);
                }
                assert(self.order@ == s0.order@.remove(0));
                assert(self.nodes@[evicted as int].key == s0.nodes@[evicted as int].key) by {
                    assert(entries_of(self.nodes@)[evicted as int] == entries_of(
                        s0.nodes@,
                    )[evicted as int]);
                }
            }
            self.map.remove(&self.nodes[evicted].key);
            let fresh = key.clone();
            proof {
                assert(strictly_cloned(key, fresh));
            }
            let ghost unlinked = self.nodes@;
            self.nodes[evicted] = Node { key: fresh, value, prev: None, next: None };
            proof {
                let order = self.order@;
                assert(!order.contains(evicted)) by {
                    if order.contains(evicted) {
                        let q = choose|q: int| 0 <= q < order.len() && order[q] == evicted;
                        assert(s0.order@[q + 1] == evicted);
                        assert(s0.order@[q + 1] != s0.order@[0]);
                    }
                }
                assert forall|j: int| 0 <= j < order.len() implies #[trigger] self.nodes@[order[j] as int]
                    == unlinked[order[j] as int] by {
                    assert(order[j] != evicted);
                }
                assert(entries_of(self.nodes@) =~= entries_of(s0.nodes@).update(
                    evicted as int,
                    (key, value),
                )) by {
                    assert forall|a: int| 0 <= a < self.nodes@.len() && a != evicted implies
                        #[trigger] entries_of(self.nodes@)[a] == entries_of(unlinked)[a] by {}
                }
            }
            evicted
        } else {
            let fresh = key.clone();
            proof {
                assert(strictly_cloned(key, fresh));
            }
            self.nodes.push(Node { key: fresh, value, prev: None, next: None });
            proof {
                let order = self.order@;
                let n0 = s0.nodes@.len();
                assert forall|j: int| 0 <= j < order.len() implies #[trigger] self.nodes@[order[j] as int]
                    == s0.nodes@[order[j] as int] by {}
                assert(!order.contains(n0 as usize)) by {
                    if order.contains(n0 as usize) {
                        let q = choose|q: int| 0 <= q < order.len() && order[q] == n0;
                    }
                }
                assert(entries_of(self.nodes@) =~= entries_of(s0.nodes@).push((key, value)));
            }
            self.nodes.len() - 1
        };
        self.map.insert(key, index);
        self.push_front(index);
        proof {
            self.lemma_put_new_key(s0, index, key, value);
        }
    }

    /// After storing a key that was not held, in slot `index`.
    proof fn lemma_put_new_key(&self, before: Self, index: usize, key: K, value: V)
        requires
            before.wf(),
            !before.map@.contains_key(key),
            linked(self.nodes@, self.order@, self.head, self.tail),
            self.capacity == before.capacity,
            before.nodes@.len() == before.capacity ==> {
                &&& index == before.order@[0]
                &&& self.order@ == before.order@.remove(0).push(index)
                &&& entries_of(self.nodes@) == entries_of(before.nodes@).update(
                    index as int,
                    (key, value),
                )
                &&& self.map@ == before.map@.remove(before.nodes@[index as int].key).insert(
                    key,
                    index,
                )
            },
            before.nodes@.len() != before.capacity ==> {
                &&& index == before.nodes@.len()
                &&& self.order@ == before.order@.push(index)
                &&& entries_of(self.nodes@) == entries_of(before.nodes@).push((key, value))
                &&& self.map@ == before.map@.insert(key, index)
            },
        ensures
            self.wf(),
            self@ == after_put(before@, before.limit(), key, value),
    {
        before.lemma_wf_view();
        let nodes = self.nodes@;
        let old_nodes = before.nodes@;
        let order = self.order@;
        let old_order = before.order@;
        let evicting = old_nodes.len() == before.capacity;
        assert(entries_of(nodes).len() == nodes.len());
        assert(entries_of(old_nodes).len() == old_nodes.len());
        assert forall|a: int| 0 <= a < nodes.len() implies (#[trigger] nodes[a]).key == (if a
            == index {
            key
        } else {
            old_nodes[a].key
        }) && nodes[a].value == (if a == index {
            value
        } else {
            old_nodes[a].value
        }) by {
            assert(entries_of(nodes)[a] == (nodes[a].key, nodes[a].value));
            if a != index {
                assert(entries_of(old_nodes)[a] == (old_nodes[a].key, old_nodes[a].value));
            }
        }
        assert forall|x: usize| x < nodes.len() implies order.contains(x) by {
            if x == index {
                assert(order[order.len() - 1] == x);
            } else {
                assert(old_order.contains(x));
                let q = choose|q: int| 0 <= q < old_order.len() && old_order[q] == x;
                if evicting {
                    assert(q != 0);
                    assert(order[q - 1] == x);
                } else {
                    assert(order[q] == x);
                }
            }
        }
        let old_key = old_nodes[index as int].key;
        assert forall|a: int| 0 <= a < nodes.len() implies self.map@.contains_key(
            #[trigger] nodes[a].key,
        ) && self.map@[nodes[a].key] == a by {
            if a != index {
                assert(before.map@.contains_key(old_nodes[a].key));
                assert(old_nodes[a].key != key);
                if evicting {
                    assert(old_nodes[a].key != old_key) by {
                        assert(before.map@[old_key] == index);
                    }
                }
            }
        }
        assert forall|k: K| #[trigger] self.map@.contains_key(k) implies self.map@[k]
            < nodes.len() && nodes[self.map@[k] as int].key == k by {
            if k != key {
                assert(before.map@.contains_key(k));
                if evicting {
                    assert(k != old_key);
                    assert(before.map@[k] != index);
                }
            }
        }
        if evicting {
            assert(before.map@.contains_key(old_key));
            assert(self.map@.len() == nodes.len());
        } else {
            assert(self.map@.len() == nodes.len());
        }
        let expected = after_put(before@, before.limit(), key, value);
        assert(!holds_key(before@, key));
        assert(self@ =~= expected) by {
            if evicting {
                assert(expected == before@.drop_first().push((key, value)));
                assert forall|j: int| 0 <= j < order.len() - 1 implies order[j] == old_order[j + 1]
                    && old_order[j + 1] != index by {
                    assert(old_order[j + 1] != old_order[0]);
                }
            } else {
                assert(expected == before@.push((key, value)));
                assert forall|j: int| 0 <= j < order.len() - 1 implies order[j] == old_order[j]
                    && old_order[j] != index by {}
            }
        }
    }

    /// After moving slot `i`, at position `p`, to the front.
    proof fn lemma_moved(&self, before: Self, i: usize, p: int)
        requires
            before.wf(),
            0 <= p < before.order@.len(),
            before.order@[p] == i,
            self.order@ == before.order@.remove(p).push(i),
            linked(self.nodes@, self.order@, self.head, self.tail),
            entries_of(self.nodes@) == entries_of(before.nodes@),
            self.map == before.map,
            self.capacity == before.capacity,
        ensures
            self.wf(),
            self@ == before@.remove(p).push(before@[p]),
    {
        let nodes = self.nodes@;
        let old_nodes = before.nodes@;
        let order = self.order@;
        let old_order = before.order@;
        let n = order.len() as int;
        assert(nodes.len() == old_nodes.len()) by {
            assert(entries_of(nodes).len() == entries_of(old_nodes).len());
        }
        assert forall|a: int| 0 <= a < nodes.len() implies nodes[a].key == old_nodes[a].key
            && nodes[a].value == old_nodes[a].value by {
            assert(entries_of(nodes)[a] == entries_of(old_nodes)[a]);
        }
        assert forall|x: usize| x < nodes.len() implies order.contains(x) by {
            assert(old_order.contains(x));
            let q = choose|q: int| 0 <= q < old_order.len() && old_order[q] == x;
            if q == p {
                assert(order[n - 1] == x);
            } else if q < p {
                assert(order[q] == x);
            } else {
                assert(order[q - 1] == x);
            }
        }
        assert forall|a: int| 0 <= a < nodes.len() implies self.map@.contains_key(
            #[trigger] nodes[a].key,
        ) && self.map@[nodes[a].key] == a by {
            assert(old_nodes[a].key == nodes[a].key);
        }
        assert(self@ =~= before@.remove(p).push(before@[p]));
    }

    /// After giving slot `i`, at position `p`, a new value.
    proof fn lemma_value_replaced(&self, before: Self, i: usize, p: int)
        requires
            before.wf(),
            0 <= p < before.order@.len(),
            before.order@[p] == i,
            i < before.nodes@.len(),
            self.nodes@ == before.nodes@.update(
                i as int,
                Node {
                    key: before.nodes@[i as int].key,
                    value: self.nodes@[i as int].value,
                    prev: before.nodes@[i as int].prev,
                    next: before.nodes@[i as int].next,
                },
            ),
            self.order == before.order,
            self.map == before.map,
            self.head == before.head,
            self.tail == before.tail,
            self.capacity == before.capacity,
        ensures
            self.wf(),
            self@ == before@.update(p, (before@[p].0, self.nodes@[i as int].value)),
            entries_of(self.nodes@) == entries_of(before.nodes@).update(
                i as int,
                (before.nodes@[i as int].key, self.nodes@[i as int].value),
            ),
    {
        let nodes = self.nodes@;
        let order = self.order@;
        assert forall|j: int| 0 <= j < order.len() implies (#[trigger] nodes[order[j] as int]).next
            == before.nodes@[order[j] as int].next && nodes[order[j] as int].prev
            == before.nodes@[order[j] as int].prev by {}
        assert forall|a: int| 0 <= a < nodes.len() implies self.map@.contains_key(
            #[trigger] nodes[a].key,
        ) && self.map@[nodes[a].key] == a by {
            assert(nodes[a].key == before.nodes@[a].key);
        }
        assert forall|j: int| 0 <= j < order.len() && order[j] != i implies nodes[order[j] as int]
            == before.nodes@[order[j] as int] by {}
        assert forall|j: int| 0 <= j < order.len() && order[j] == i implies j == p by {
            if j != p {
                assert(order[j] != order[p]);
            }
        }
        assert(self@ =~= before@.update(p, (before@[p].0, self.nodes@[i as int].value)));
        assert(entries_of(self.nodes@) =~= entries_of(before.nodes@).update(
            i as int,
            (before.nodes@[i as int].key, self.nodes@[i as int].value),
        ));
    }

    /// Detaches slot `i` from the list, mending its neighbours.
    #[verifier::rlimit(40)]
    fn unlink(&mut self, i: usize)
        requires
            linked(old(self).nodes@, old(self).order@, old(self).head, old(self).tail),
            old(self).order@.contains(i),
        ensures
            ({
                let p = choose|p: int|
                    0 <= p < old(self).order@.len() && old(self).order@[p] == i;
                &&& final(self).order@ == old(self).order@.remove(p)
                &&& linked(final(self).nodes@, final(self).order@, final(self).head, final(self).tail)
            }),
            entries_of(final(self).nodes@) == entries_of(old(self).nodes@),
            final(self).nodes@.len() == old(self).nodes@.len(),
            final(self).map == old(self).map,
            final(self).capacity == old(self).capacity,
    {
        let ghost order = self.order@;
        let ghost p = choose|p: int| 0 <= p < order.len() && order[p] == i;
        let ghost old_nodes = self.nodes@;
        let prev = self.nodes[i].prev;
        let next = self.nodes[i].next;
        match prev {
            Some(p) => self.nodes[p].next = next,
            None => self.head = next,
        }
        match next {
            Some(n) => self.nodes[n].prev = prev,
            None => self.tail = prev,
        }
        proof {
            let new_order = order.remove(p);
            self.order@ = new_order;
            let nodes = self.nodes@;
            let n = new_order.len() as int;
            assert forall|a: int, b: int| 0 <= a < b < n implies new_order[a] != new_order[b] by {
                let oa = if a < p { a } else { a + 1 };
                let ob = if b < p { b } else { b + 1 };
                assert(new_order[a] == order[oa] && new_order[b] == order[ob]);
            }
            assert forall|j: int| 0 <= j < n implies (#[trigger] nodes[new_order[j] as int]).next
                == (if j > 0 {
                Some(new_order[j - 1])
            } else {
                None
            }) by {
                let oj = if j < p { j } else { j + 1 };
                assert(new_order[j] == order[oj]);
                assert(old_nodes[order[oj] as int].next == (if oj > 0 {
                    Some(order[oj - 1])
                } else {
                    None
                }));
                if j > 0 {
                    let oprev = if j - 1 < p { j - 1 } else { j };
                    assert(new_order[j - 1] == order[oprev]);
                }
            }
            assert forall|j: int| 0 <= j < n implies (#[trigger] nodes[new_order[j] as int]).prev
                == (if j + 1 < n {
                Some(new_order[j + 1])
            } else {
                None
            }) by {
                let oj = if j < p { j } else { j + 1 };
                assert(new_order[j] == order[oj]);
                assert(old_nodes[order[oj] as int].prev == (if oj + 1 < order.len() {
                    Some(order[oj + 1])
                } else {
                    None
                }));
                if j + 1 < n {
                    let onext = if j + 1 < p { j + 1 } else { j + 2 };
                    assert(new_order[j + 1] == order[onext]);
                }
            }
        }
    }

    /// Makes slot `i` the head, the most recently used.
    fn push_front(&mut self, i: usize)
        requires
            linked(old(self).nodes@, old(self).order@, old(self).head, old(self).tail),
            i < old(self).nodes@.len(),
            !old(self).order@.contains(i),
        ensures
            final(self).order@ == old(self).order@.push(i),
            linked(final(self).nodes@, final(self).order@, final(self).head, final(self).tail),
            entries_of(final(self).nodes@) == entries_of(old(self).nodes@),
            final(self).nodes@.len() == old(self).nodes@.len(),
            final(self).map == old(self).map,
            final(self).capacity == old(self).capacity,
    {
        let ghost order = self.order@;
        let ghost old_nodes = self.nodes@;
        self.nodes[i].prev = None;
        self.nodes[i].next = self.head;
        if let Some(old_head) = self.head {
            self.nodes[old_head].prev = Some(i);
        }
        self.head = Some(i);
        if self.tail.is_none() {
            self.tail = Some(i);
        }
        proof {
            let new_order = order.push(i);
            self.order@ = new_order;
            let nodes = self.nodes@;
            let n = new_order.len() as int;
            assert forall|a: int, b: int| 0 <= a < b < n implies new_order[a] != new_order[b] by {
                if b == n - 1 {
                    assert(order.contains(new_order[a]) || a == n - 1);
                }
            }
            assert forall|j: int| 0 <= j < n implies (#[trigger] nodes[new_order[j] as int]).next
                == (if j > 0 {
                Some(new_order[j - 1])
            } else {
                None
            }) by {
                if j < n - 1 {
                    assert(new_order[j] == order[j]);
                    assert(order[j] != i);
                    assert(old_nodes[order[j] as int].next == (if j > 0 {
                        Some(order[j - 1])
                    } else {
                        None
                    }));
                }
            }
            assert forall|j: int| 0 <= j < n implies (#[trigger] nodes[new_order[j] as int]).prev
                == (if j + 1 < n {
                Some(new_order[j + 1])
            } else {
                None
            }) by {
                if j < n - 1 {
                    assert(new_order[j] == order[j]);
                    assert(order[j] != i);
                    assert(old_nodes[order[j] as int].prev == (if j + 1 < order.len() {
                        Some(order[j + 1])
                    } else {
                        None
                    }));
                }
            }
        }
    }

    /// Makes slot `i` the most recently used.
    fn move_to_front(&mut self, i: usize)
        requires
            linked(old(self).nodes@, old(self).order@, old(self).head, old(self).tail),
            old(self).order@.contains(i),
        ensures
            ({
                let p = choose|p: int|
                    0 <= p < old(self).order@.len() && old(self).order@[p] == i;
                final(self).order@ == old(self).order@.remove(p).push(i)
            }),
            linked(final(self).nodes@, final(self).order@, final(self).head, final(self).tail),
            entries_of(final(self).nodes@) == entries_of(old(self).nodes@),
            final(self).nodes@.len() == old(self).nodes@.len(),
            final(self).map == old(self).map,
            final(self).capacity == old(self).capacity,
    {
        if self.head == Some(i) {
            proof {
                let order = self.order@;
                let p = choose|p: int| 0 <= p < order.len() && order[p] == i;
                let n = order.len() as int;
                if p != n - 1 {
                    assert(order[p] != order[n - 1]);
                }
                assert(order.remove(p).push(i) =~= order);
            }
            return ;
        }
        let ghost order = self.order@;
        let ghost p = choose|p: int| 0 <= p < order.len() && order[p] == i;
        self.unlink(i);
        proof {
            let removed = order.remove(p);
            if removed.contains(i) {
                let q = choose|q: int| 0 <= q < removed.len() && removed[q] == i;
                let oq = if q < p { q } else { q + 1 };
                assert(order[oq] == i);
            }
        }
        self.push_front(i);
    }

    /// The number of entries held.
    pub fn len(&self) -> (n: usize)
        requires
            self.wf(),
        ensures
            n == self@.len(),
    {
        self.map.len()
    }

    /// Whether the cache holds no entry.
    pub fn is_empty(&self) -> (b: bool)
        requires
            self.wf(),
        ensures
            b == (self@.len() == 0),
    {
        self.map.is_empty()
    }
}

} // verus!
