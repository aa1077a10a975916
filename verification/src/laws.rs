//! Laws relating the store's operations, proved over the cache model.
//!
//! The exec functions' contracts pin each operation's effect as a model
//! transition (`cache_put`, `cache_get`, `cache_remove`, `apply_ops`); the
//! lemmas here state what chains of those transitions observe.

use crate::cache::{
    cache_get, cache_has, cache_lookup, cache_put, cache_remove, lemma_shards_update_wf,
    shards_wf, CacheModel,
};
use crate::keys::{lemma_compose_injective, store_key};
use crate::router::{lemma_route_spec_bound, route_spec};
use crate::shard::{
    lemma_sm_get_props, lemma_sm_put_props, lemma_sm_remove_props, sm_put,
};
use vstd::prelude::*;
use vstd::utf8::{encode_utf8, encode_utf8_decode_utf8};

verus! {

/// A value just written is the one read back: for every well-formed cache
/// state, namespace and key, a put of `value` followed by a get of the same
/// (namespace, key) yields `Some(value)`.
pub proof fn lemma_get_after_put(
    shards: CacheModel,
    cap: nat,
    prefix: Seq<char>,
    key: Seq<u8>,
    value: Seq<u8>,
)
    requires
        shards_wf(shards, cap),
    ensures
        cache_lookup(
            cache_put(shards, cap, store_key(prefix, key), value),
            store_key(prefix, key),
        ) == Some(value),
        cache_has(cache_put(shards, cap, store_key(prefix, key), value), store_key(prefix, key)),
{
    let ck = store_key(prefix, key);
    lemma_route_spec_bound(ck);
    let i = route_spec(ck);
    lemma_sm_put_props(shards[i], cap, ck, value);
}

/// After a removal the entry is gone: the get returns `None` and the
/// membership test is false.
pub proof fn lemma_absent_after_remove(
    shards: CacheModel,
    cap: nat,
    prefix: Seq<char>,
    key: Seq<u8>,
)
    requires
        shards_wf(shards, cap),
    ensures
        cache_lookup(cache_remove(shards, store_key(prefix, key)), store_key(prefix, key))
            is None,
        !cache_has(cache_remove(shards, store_key(prefix, key)), store_key(prefix, key)),
        shards_wf(cache_remove(shards, store_key(prefix, key)), cap),
{
    let ck = store_key(prefix, key);
    lemma_route_spec_bound(ck);
    let i = route_spec(ck);
    lemma_sm_remove_props(shards[i], ck);
    lemma_shards_update_wf(shards, cap, i, cache_remove(shards, ck)[i], ck);
}

/// A get never changes what is stored: it only promotes recency, so every
/// key's lookup is the same before and after, and well-formedness is kept.
pub proof fn lemma_get_preserves_lookup(shards: CacheModel, cap: nat, k: Seq<u8>, k2: Seq<u8>)
    requires
        shards_wf(shards, cap),
    ensures
        cache_lookup(cache_get(shards, k), k2) == cache_lookup(shards, k2),
        shards_wf(cache_get(shards, k), cap),
{
    lemma_route_spec_bound(k);
    lemma_route_spec_bound(k2);
    let i = route_spec(k);
    lemma_sm_get_props(shards[i], k);
    lemma_shards_update_wf(shards, cap, i, cache_get(shards, k)[i], k);
}

/// Capacity bound and eviction victim: a put never lifts a shard's entry
/// count above its capacity, and when a new key lands in a full shard the
/// entry that leaves is exactly the least recently used one, the last in
/// that shard's recency order.
pub proof fn lemma_put_capacity_bound(shards: CacheModel, cap: nat, k: Seq<u8>, v: Seq<u8>)
    requires
        shards_wf(shards, cap),
    ensures
        shards_wf(cache_put(shards, cap, k, v), cap),
        (!cache_has(shards, k) && shards[route_spec(k)].len() == cap) ==> cache_put(
            shards,
            cap,
            k,
            v,
        )[route_spec(k)] == seq![(k, v)] + shards[route_spec(k)].drop_last(),
        (!cache_has(shards, k) && shards[route_spec(k)].len() == cap) ==> !cache_has(
            cache_put(shards, cap, k, v),
            shards[route_spec(k)].last().0,
        ),
{
    lemma_route_spec_bound(k);
    let i = route_spec(k);
    lemma_sm_put_props(shards[i], cap, k, v);
    lemma_shards_update_wf(shards, cap, i, cache_put(shards, cap, k, v)[i], k);
    if !cache_has(shards, k) && shards[i].len() == cap {
        let victim = shards[i].last().0;
        assert(route_spec(victim) == i);
        assert(!crate::shard::sm_has(sm_put(shards[i], cap, k, v), victim));
    }
}

/// Distinct (namespace, key) pairs give distinct composite keys: the
/// length-prefixed composition and the injectivity of UTF-8 encoding
/// together rule out any cross-namespace collision.
pub proof fn lemma_store_key_injective(p1: Seq<char>, k1: Seq<u8>, p2: Seq<char>, k2: Seq<u8>)
    requires
        encode_utf8(p1).len() < 0x1_0000_0000_0000_0000,
        encode_utf8(p2).len() < 0x1_0000_0000_0000_0000,
        store_key(p1, k1) == store_key(p2, k2),
    ensures
        p1 == p2,
        k1 == k2,
{
    lemma_compose_injective(encode_utf8(p1), k1, encode_utf8(p2), k2);
    encode_utf8_decode_utf8(p1);
    encode_utf8_decode_utf8(p2);
}

/// Inserting one key does not disturb another, as long as the insert does
/// not evict it: either the two keys route to different shards, or the
/// other key does not sit in the least recently used slot of a full shard
/// receiving a new key.
pub open spec fn put_spares(shards: CacheModel, cap: nat, k: Seq<u8>, kother: Seq<u8>) -> bool {
    !(route_spec(kother) == route_spec(k) && !cache_has(shards, k) && shards[route_spec(k)].len()
        == cap && shards[route_spec(k)].len() > 0 && shards[route_spec(k)].last().0 == kother)
}

pub proof fn lemma_put_preserves_other(
    shards: CacheModel,
    cap: nat,
    k: Seq<u8>,
    v: Seq<u8>,
    kother: Seq<u8>,
)
    requires
        shards_wf(shards, cap),
        kother != k,
        put_spares(shards, cap, k, kother),
    ensures
        cache_lookup(cache_put(shards, cap, k, v), kother) == cache_lookup(shards, kother),
{
    lemma_route_spec_bound(k);
    lemma_route_spec_bound(kother);
    let i = route_spec(k);
    let j = route_spec(kother);
    lemma_sm_put_props(shards[i], cap, k, v);
    if i != j {
        assert(cache_put(shards, cap, k, v)[j] == shards[j]);
    }
}

/// Namespace isolation: the same raw key written under two different
/// namespaces keeps both values apart, and both read back, provided the
/// second write does not happen to evict the first entry from a full shard.
pub proof fn lemma_namespace_isolation(
    shards: CacheModel,
    cap: nat,
    p1: Seq<char>,
    p2: Seq<char>,
    key: Seq<u8>,
    v1: Seq<u8>,
    v2: Seq<u8>,
)
    requires
        shards_wf(shards, cap),
        p1 != p2,
        encode_utf8(p1).len() < 0x1_0000_0000_0000_0000,
        encode_utf8(p2).len() < 0x1_0000_0000_0000_0000,
        put_spares(
            cache_put(shards, cap, store_key(p1, key), v1),
            cap,
            store_key(p2, key),
            store_key(p1, key),
        ),
    ensures
        cache_lookup(
            cache_put(
                cache_put(shards, cap, store_key(p1, key), v1),
                cap,
                store_key(p2, key),
                v2,
            ),
            store_key(p2, key),
        ) == Some(v2),
        cache_lookup(
            cache_put(
                cache_put(shards, cap, store_key(p1, key), v1),
                cap,
                store_key(p2, key),
                v2,
            ),
            store_key(p1, key),
        ) == Some(v1),
{
    let ck1 = store_key(p1, key);
    let ck2 = store_key(p2, key);
    if ck1 == ck2 {
        lemma_store_key_injective(p1, key, p2, key);
    }
    assert(ck1 != ck2);
    lemma_get_after_put(shards, cap, p1, key, v1);
    lemma_put_capacity_bound(shards, cap, ck1, v1);
    let s1 = cache_put(shards, cap, ck1, v1);
    lemma_get_after_put(s1, cap, p2, key, v2);
    lemma_put_preserves_other(s1, cap, ck2, v2, ck1);
}

} // verus!

