use cache_storage::compose_key;
use cache_storage::router::{route, NUM_SHARDS};

#[test]
fn route_is_deterministic() {
    let key1: Vec<u8> = vec![1, 2, 3, 4];
    let key2: Vec<u8> = vec![1, 2, 3, 4];
    assert_eq!(route(&key1), route(&key1));
    // equal bytes in a different allocation land on the same shard
    assert_eq!(route(&key1), route(&key2));
    let empty: Vec<u8> = Vec::new();
    assert_eq!(route(&empty), route(&empty));
}

#[test]
fn route_stays_in_range() {
    for i in 0..200u8 {
        let key = vec![i, i.wrapping_mul(7), 42];
        assert!(route(&key) < NUM_SHARDS);
    }
}

#[test]
fn compose_key_layout_is_length_prefixed() {
    let composed = compose_key("ab".to_string(), vec![7]);
    assert_eq!(composed, vec![0, 0, 0, 0, 0, 0, 0, 2, b'a', b'b', 7]);
    let empty_ns = compose_key(String::new(), vec![9, 9]);
    assert_eq!(empty_ns, vec![0, 0, 0, 0, 0, 0, 0, 0, 9, 9]);
}

#[test]
fn compose_key_is_unambiguous() {
    // a naive concatenation would make these two collide
    let a = compose_key("ab".to_string(), b"c".to_vec());
    let b = compose_key("a".to_string(), b"bc".to_vec());
    assert_ne!(a, b);
}
