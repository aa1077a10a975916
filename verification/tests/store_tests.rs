use cache_storage::compose_key;
use cache_storage::router::route;
use cache_storage::store::{CacheStorage, StorageMetrics, WriteBatch};

fn k(s: &str) -> Vec<u8> {
    s.as_bytes().to_vec()
}

fn v(n: u8) -> Vec<u8> {
    vec![n]
}

#[test]
fn put_then_get_returns_value() {
    let mut store = CacheStorage::new(None);
    store.put("ns", k("key"), v(1));
    assert_eq!(store.get("ns", k("key")), Some(v(1)));
    assert!(store.contains_key("ns", k("key")));
}

#[test]
fn remove_makes_key_absent() {
    let mut store = CacheStorage::new(None);
    store.put("ns", k("key"), v(1));
    store.remove("ns", k("key"));
    assert_eq!(store.get("ns", k("key")), None);
    assert!(!store.contains_key("ns", k("key")));
}

#[test]
fn namespaces_are_isolated() {
    let mut store = CacheStorage::new(None);
    store.put("a", k("key"), v(1));
    store.put("b", k("key"), v(2));
    assert_eq!(store.get("a", k("key")), Some(v(1)));
    assert_eq!(store.get("b", k("key")), Some(v(2)));
    store.remove("a", k("key"));
    assert_eq!(store.get("a", k("key")), None);
    assert_eq!(store.get("b", k("key")), Some(v(2)));
}

#[test]
fn write_batch_replays_in_order() {
    let mut store = CacheStorage::new(None);
    let mut batch = WriteBatch::new();
    batch.put(k("k1"), v(1));
    batch.delete(k("k2"));
    batch.put(k("k1"), v(2));
    assert!(store.write_batch("ns", batch).is_ok());
    assert_eq!(store.get("ns", k("k1")), Some(v(2)));
    assert_eq!(store.get("ns", k("k2")), None);
}

#[test]
fn write_batch_sync_matches_write_batch() {
    let mut store = CacheStorage::new(None);
    let mut batch = WriteBatch::new();
    batch.put(k("k1"), v(3));
    assert!(store.write_batch_sync("ns", batch).is_ok());
    assert_eq!(store.get("ns", k("k1")), Some(v(3)));
}

#[test]
fn put_sync_matches_put() {
    let mut store = CacheStorage::new(None);
    store.put_sync("ns", k("key"), v(5));
    assert_eq!(store.get("ns", k("key")), Some(v(5)));
}

#[test]
fn get_len_counts_all_entries() {
    let mut store = CacheStorage::new(None);
    assert_eq!(store.get_len(), 0);
    store.put("a", k("k1"), v(1));
    store.put("a", k("k2"), v(2));
    store.put("b", k("k1"), v(3));
    assert_eq!(store.get_len(), 3);
    // overwriting adds nothing
    store.put("a", k("k1"), v(9));
    assert_eq!(store.get_len(), 3);
    store.remove("a", k("k2"));
    assert_eq!(store.get_len(), 2);
    assert_eq!(store.keys().len() as u64, store.get_len());
}

#[test]
fn keys_lists_composite_keys() {
    let mut store = CacheStorage::new(None);
    store.put("ns", k("key"), v(1));
    let keys = store.keys();
    assert_eq!(keys.len(), 1);
    assert_eq!(keys[0], compose_key("ns".to_string(), k("key")));
}

#[test]
fn small_capacity_evicts_within_a_shard() {
    // capacity 1 gives every shard capacity 1: two keys that route to the
    // same shard cannot coexist, and the newer one wins
    let mut store = CacheStorage::new_with_capacity(1, None);
    let first = compose_key("ns".to_string(), vec![0]);
    let shard = route(&first);
    let mut other: Option<u8> = None;
    for i in 1..=255u8 {
        if route(&compose_key("ns".to_string(), vec![i])) == shard {
            other = Some(i);
            break;
        }
    }
    let other = other.expect("some key collides into the same shard");
    store.put("ns", vec![0], v(1));
    store.put("ns", vec![other], v(2));
    assert_eq!(store.get("ns", vec![0]), None);
    assert_eq!(store.get("ns", vec![other]), Some(v(2)));
}

#[test]
fn default_store_starts_empty() {
    let store = CacheStorage::default();
    assert_eq!(store.get_len(), 0);
    assert!(store.metrics_ref().is_none());
    assert!(store.keys().is_empty());
}

#[test]
fn gauge_tracks_item_count() {
    let mut store = CacheStorage::new(Some(StorageMetrics::new()));
    store.put("ns", k("k1"), v(1));
    assert_eq!(store.metrics_ref().as_ref().unwrap().cache_items, 1);
    store.put("ns", k("k2"), v(2));
    assert_eq!(store.metrics_ref().as_ref().unwrap().cache_items, 2);
    store.remove("ns", k("k1"));
    assert_eq!(store.metrics_ref().as_ref().unwrap().cache_items, 1);
}

#[test]
fn reads_and_batches_are_recorded_but_single_writes_are_not() {
    let mut store = CacheStorage::new(Some(StorageMetrics::new()));
    store.put("ns", k("k1"), v(1));
    store.remove("ns", k("k1"));
    assert_eq!(store.metrics_ref().as_ref().unwrap().recorded_ops, 0);
    store.get("ns", k("k1"));
    assert_eq!(store.metrics_ref().as_ref().unwrap().recorded_ops, 1);
    store.contains_key("ns", k("k1"));
    assert_eq!(store.metrics_ref().as_ref().unwrap().recorded_ops, 2);
    let batch = WriteBatch::new();
    assert!(store.write_batch("ns", batch).is_ok());
    assert_eq!(store.metrics_ref().as_ref().unwrap().recorded_ops, 3);
}

#[test]
fn absent_recorder_stays_absent() {
    let mut store = CacheStorage::new(None);
    store.put("ns", k("k1"), v(1));
    store.get("ns", k("k1"));
    assert!(store.metrics_ref().is_none());
}
