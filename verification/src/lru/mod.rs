//! A least-recently-used cache: first over a vector kept in recency order,
//! then with a hash map and an index-linked list for constant-time steps.
use vstd::prelude::*;

use std::hash::Hash;

use v1::{after_get, after_put, value_for};

pub mod v1;
pub mod v2;

verus! {

/// The two caches behave alike: two well-formed caches, one of each kind,
/// that hold the same entries under the same limit find the same value for
/// any key, hold as many entries, and stay alike after the same lookup or
/// store, since `get` and `put` of both are stated by `after_get` and
/// `after_put`.
pub proof fn lemma_caches_agree<K: Hash + Eq + Clone, V>(
    a: v1::LruCache<K, V>,
    b: v2::LruCache<K, V>,
    key: K,
    value: V,
)
    requires
        a.wf(),
        b.wf(),
        a@ == b@,
        a.limit() == b.limit(),
    ensures
        value_for(a@, key) == value_for(b@, key),
        a@.len() == b@.len(),
        after_get(a@, key) == after_get(b@, key),
        after_put(a@, a.limit(), key, value) == after_put(b@, b.limit(), key, value),
{
    a.lemma_shape();
    b.lemma_shape();
}

} // verus!
