use learn_rust_with_tests::lru::{v1, v2};

#[test]
fn lib_stores_and_retrieves_values() {
    let mut cache = v1::LruCache::new(2);
    assert_eq!(cache.get(&"a"), None);
    cache.put("a", 1);
    assert_eq!(cache.get(&"a"), Some(&1));

    let mut cache = v2::LruCache::new(2);
    assert_eq!(cache.get(&"a"), None);
    cache.put("a", 1);
    assert_eq!(cache.get(&"a"), Some(&1));
}

#[test]
fn lib_evicts_the_least_recently_used_entry_when_full() {
    let mut cache = v1::LruCache::new(2);
    cache.put("a", 1);
    cache.put("b", 2);
    cache.put("c", 3);
    assert_eq!(cache.get(&"a"), None);
    assert_eq!(cache.get(&"b"), Some(&2));
    assert_eq!(cache.get(&"c"), Some(&3));

    let mut cache = v2::LruCache::new(2);
    cache.put("a", 1);
    cache.put("b", 2);
    cache.put("c", 3);
    assert_eq!(cache.get(&"a"), None);
    assert_eq!(cache.get(&"b"), Some(&2));
    assert_eq!(cache.get(&"c"), Some(&3));
}

#[test]
fn lib_getting_a_key_refreshes_its_recency() {
    let mut cache = v1::LruCache::new(2);
    cache.put("a", 1);
    cache.put("b", 2);
    cache.get(&"a");
    cache.put("c", 3);
    assert_eq!(cache.get(&"a"), Some(&1));
    assert_eq!(cache.get(&"b"), None);
    assert_eq!(cache.get(&"c"), Some(&3));

    let mut cache = v2::LruCache::new(2);
    cache.put("a", 1);
    cache.put("b", 2);
    cache.get(&"a");
    cache.put("c", 3);
    assert_eq!(cache.get(&"a"), Some(&1));
    assert_eq!(cache.get(&"b"), None);
    assert_eq!(cache.get(&"c"), Some(&3));
}

#[test]
fn lib_putting_an_existing_key_updates_and_refreshes_it() {
    let mut cache = v1::LruCache::new(2);
    cache.put("a", 1);
    cache.put("b", 2);
    cache.put("a", 10);
    cache.put("c", 3);
    assert_eq!(cache.get(&"a"), Some(&10));
    assert_eq!(cache.get(&"b"), None);
    assert_eq!(cache.get(&"c"), Some(&3));

    let mut cache = v2::LruCache::new(2);
    cache.put("a", 1);
    cache.put("b", 2);
    cache.put("a", 10);
    cache.put("c", 3);
    assert_eq!(cache.get(&"a"), Some(&10));
    assert_eq!(cache.get(&"b"), None);
    assert_eq!(cache.get(&"c"), Some(&3));
}

#[test]
fn survives_a_longer_sequence_of_operations() {
    let mut cache = v2::LruCache::new(3);
    for i in 0..100 {
        cache.put(i, i * 2);
    }
    assert_eq!(cache.len(), 3);
    assert_eq!(cache.get(&99), Some(&198));
    assert_eq!(cache.get(&97), Some(&194));
    assert_eq!(cache.get(&96), None);

    let mut cache = v1::LruCache::new(3);
    for i in 0..100 {
        cache.put(i, i * 2);
    }
    assert_eq!(cache.len(), 3);
    assert_eq!(cache.get(&99), Some(&198));
    assert_eq!(cache.get(&97), Some(&194));
    assert_eq!(cache.get(&96), None);
}

#[test]
fn a_value_read_back_is_the_value_last_written() {
    let mut cache = v2::LruCache::new(2);
    cache.put(1, "one");
    cache.put(1, "uno");
    assert_eq!(cache.get(&1), Some(&"uno"));
    assert_eq!(cache.len(), 1);
    assert!(!cache.is_empty());

    let fresh: v1::LruCache<u8, u8> = v1::LruCache::new(1);
    assert!(fresh.is_empty());
    assert_eq!(fresh.len(), 0);
}
