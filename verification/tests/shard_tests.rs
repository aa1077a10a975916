use cache_storage::shard::LruShard;

fn k(s: &str) -> Vec<u8> {
    s.as_bytes().to_vec()
}

fn v(n: u8) -> Vec<u8> {
    vec![n]
}

#[test]
fn eviction_takes_least_recently_used() {
    // capacity 2: A, B, then C evicts A, the least recently used entry
    let mut shard = LruShard::new(2);
    assert_eq!(shard.put(k("A"), v(1)), None);
    assert_eq!(shard.put(k("B"), v(2)), None);
    assert_eq!(shard.put(k("C"), v(3)), None);
    assert_eq!(shard.get(&k("A")), None);
    assert_eq!(shard.get(&k("B")), Some(v(2)));
    assert_eq!(shard.get(&k("C")), Some(v(3)));
}

#[test]
fn get_promotes_entry_before_eviction() {
    // reading A right before inserting C promotes A, so C evicts B instead
    let mut shard = LruShard::new(2);
    shard.put(k("A"), v(1));
    shard.put(k("B"), v(2));
    assert_eq!(shard.get(&k("A")), Some(v(1)));
    shard.put(k("C"), v(3));
    assert_eq!(shard.get(&k("B")), None);
    assert_eq!(shard.get(&k("A")), Some(v(1)));
    assert_eq!(shard.get(&k("C")), Some(v(3)));
}

#[test]
fn contains_does_not_promote() {
    // unlike a get, a contains leaves A the least recently used entry
    let mut shard = LruShard::new(2);
    shard.put(k("A"), v(1));
    shard.put(k("B"), v(2));
    assert!(shard.contains(&k("A")));
    shard.put(k("C"), v(3));
    assert_eq!(shard.get(&k("A")), None);
    assert_eq!(shard.get(&k("B")), Some(v(2)));
}

#[test]
fn len_never_exceeds_capacity() {
    let mut shard = LruShard::new(3);
    for i in 0..10u8 {
        shard.put(vec![i], v(i));
        assert!(shard.len() <= 3);
    }
    assert_eq!(shard.len(), 3);
    // the survivors are the three most recently inserted keys
    assert!(shard.contains(&vec![7]));
    assert!(shard.contains(&vec![8]));
    assert!(shard.contains(&vec![9]));
    assert!(!shard.contains(&vec![6]));
}

#[test]
fn put_returns_previous_value_and_overwrites() {
    let mut shard = LruShard::new(2);
    assert_eq!(shard.put(k("A"), v(1)), None);
    assert_eq!(shard.put(k("A"), v(9)), Some(v(1)));
    assert_eq!(shard.get(&k("A")), Some(v(9)));
    assert_eq!(shard.len(), 1);
}

#[test]
fn pop_removes_and_returns() {
    let mut shard = LruShard::new(2);
    shard.put(k("A"), v(1));
    assert_eq!(shard.pop(&k("B")), None);
    assert_eq!(shard.pop(&k("A")), Some(v(1)));
    assert_eq!(shard.pop(&k("A")), None);
    assert_eq!(shard.len(), 0);
    assert!(!shard.contains(&k("A")));
}

#[test]
fn keys_are_listed_most_recently_used_first() {
    let mut shard = LruShard::new(3);
    shard.put(k("a"), v(1));
    shard.put(k("b"), v(2));
    shard.put(k("c"), v(3));
    assert_eq!(shard.keys(), vec![k("c"), k("b"), k("a")]);
    // a hit moves the entry to the front of the order
    shard.get(&k("b"));
    assert_eq!(shard.keys(), vec![k("b"), k("c"), k("a")]);
    // rewriting an entry also promotes it
    shard.put(k("a"), v(4));
    assert_eq!(shard.keys(), vec![k("a"), k("b"), k("c")]);
}
