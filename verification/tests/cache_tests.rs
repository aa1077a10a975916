use cache_storage::cache::ShardLruCache;

fn v(n: u8) -> Vec<u8> {
    vec![n]
}

#[test]
fn cache_put_get_pop_roundtrip() {
    let mut cache = ShardLruCache::new(64);
    assert_eq!(cache.put(v(1), v(10)), None);
    assert_eq!(cache.get(&v(1)), Some(v(10)));
    assert_eq!(cache.put(v(1), v(11)), Some(v(10)));
    assert_eq!(cache.pop(&v(1)), Some(v(11)));
    assert_eq!(cache.get(&v(1)), None);
}

#[test]
fn cache_len_sums_over_shards() {
    let mut cache = ShardLruCache::new(1024);
    assert_eq!(cache.len(), 0);
    for i in 0..20u8 {
        cache.put(v(i), v(i));
    }
    // capacity 1024 over 16 shards leaves room for 64 entries per shard,
    // so none of the 20 distinct keys can be evicted, wherever they route
    assert_eq!(cache.len(), 20);
}

#[test]
fn cache_contains_and_keys() {
    let mut cache = ShardLruCache::new(64);
    cache.put(v(1), v(10));
    cache.put(v(2), v(20));
    assert!(cache.contains(&v(1)));
    assert!(!cache.contains(&v(3)));
    let mut keys = cache.keys();
    keys.sort();
    assert_eq!(keys, vec![v(1), v(2)]);
}
