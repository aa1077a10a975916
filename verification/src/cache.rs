//! The partitioned cache: a fixed array of LRU shards behind the router.
//!
//! Every key belongs to exactly one shard, chosen by [`route`], so recency
//! is tracked per shard. The whole cache is therefore not a strict global
//! LRU: a key in a quiet shard can outlive a more recently used key that
//! routed into a full shard. Aggregate queries (`len`, `keys`) are plain
//! scans over the shards in index order.

use crate::router::{route, route_spec, NUM_SHARDS};
use crate::shard::{
    lemma_sm_get_props, lemma_sm_put_props, lemma_sm_remove_props, sm_get, sm_has, sm_lookup,
    sm_put, sm_remove, LruShard, ShardModel,
};
use vstd::arithmetic::div_mod::lemma_fundamental_div_mod;
use vstd::prelude::*;

verus! {

/// The model of the whole cache: one shard model per shard, in index order.
pub type CacheModel = Seq<ShardModel>;

/// Well-formedness of a cache model: the fixed shard count, a positive
/// per-shard capacity small enough that the total entry count fits a
/// `usize`, distinct keys within each shard, the per-shard capacity bound,
/// and every key sitting in the shard the router sends it to.
pub open spec fn shards_wf(shards: CacheModel, cap: nat) -> bool {
    &&& shards.len() == NUM_SHARDS
    &&& cap >= 1
    &&& NUM_SHARDS * cap <= usize::MAX
    &&& forall|i: int|
        0 <= i < shards.len() ==> crate::shard::sm_distinct(#[trigger] shards[i]) && shards[i].len()
            <= cap
    &&& forall|i: int, j: int|
        0 <= i < shards.len() && 0 <= j < shards[i].len() ==> #[trigger] route_spec(
            shards[i][j].0,
        ) == i
}

/// The model of a freshly constructed cache: every shard empty.
pub open spec fn empty_shards() -> CacheModel {
    Seq::new(NUM_SHARDS as nat, |i: int| Seq::empty())
}

/// The per-shard capacity for a requested total capacity: the total divided
/// by the shard count, rounded up. The aggregate capacity can therefore
/// exceed the requested total by up to `NUM_SHARDS - 1` entries; that
/// rounding is accepted, not a defect.
pub open spec fn per_shard_capacity(total: nat) -> nat {
    ((total + NUM_SHARDS - 1) / (NUM_SHARDS as int)) as nat
}

/// The model after a put of `v` under `k`: only `k`'s shard changes.
pub open spec fn cache_put(shards: CacheModel, cap: nat, k: Seq<u8>, v: Seq<u8>) -> CacheModel {
    shards.update(route_spec(k), sm_put(shards[route_spec(k)], cap, k, v))
}

/// The model after a get of `k`: a hit promotes the entry in its shard.
pub open spec fn cache_get(shards: CacheModel, k: Seq<u8>) -> CacheModel {
    shards.update(route_spec(k), sm_get(shards[route_spec(k)], k))
}

/// The model after a removal of `k`.
pub open spec fn cache_remove(shards: CacheModel, k: Seq<u8>) -> CacheModel {
    shards.update(route_spec(k), sm_remove(shards[route_spec(k)], k))
}

/// The value stored under `k`, if any.
pub open spec fn cache_lookup(shards: CacheModel, k: Seq<u8>) -> Option<Seq<u8>> {
    sm_lookup(shards[route_spec(k)], k)
}

/// Whether `k` is stored.
pub open spec fn cache_has(shards: CacheModel, k: Seq<u8>) -> bool {
    sm_has(shards[route_spec(k)], k)
}

/// The total entry count: the sum of the per-shard lengths.
pub open spec fn models_len(shards: CacheModel) -> nat
    decreases shards.len(),
{
    if shards.len() == 0 {
        0
    } else {
        shards[0].len() + models_len(shards.drop_first())
    }
}

/// All keys, shard by shard, most recently used first within each shard.
pub open spec fn models_keys(shards: CacheModel) -> Seq<Seq<u8>>
    decreases shards.len(),
{
    if shards.len() == 0 {
        Seq::empty()
    } else {
        shards[0].map_values(|e: (Seq<u8>, Seq<u8>)| e.0) + models_keys(shards.drop_first())
    }
}

proof fn lemma_models_len_push(shards: CacheModel, e: ShardModel)
    ensures
        models_len(shards.push(e)) == models_len(shards) + e.len(),
    decreases shards.len(),
{
    assert(models_len(shards.push(e)) == shards.push(e)[0].len() + models_len(
        shards.push(e).drop_first(),
    ));
    if shards.len() == 0 {
        assert(shards.push(e).drop_first() =~= Seq::<ShardModel>::empty());
        assert(shards.push(e)[0] == e);
        assert(models_len(Seq::<ShardModel>::empty()) == 0);
    } else {
        assert(shards.push(e).drop_first() =~= shards.drop_first().push(e));
        lemma_models_len_push(shards.drop_first(), e);
        assert(models_len(shards) == shards[0].len() + models_len(shards.drop_first()));
        assert(shards.push(e)[0] == shards[0]);
    }
}

proof fn lemma_models_keys_push(shards: CacheModel, e: ShardModel)
    ensures
        models_keys(shards.push(e)) == models_keys(shards) + e.map_values(
            |p: (Seq<u8>, Seq<u8>)| p.0,
        ),
    decreases shards.len(),
{
    assert(models_keys(shards.push(e)) == shards.push(e)[0].map_values(
        |p: (Seq<u8>, Seq<u8>)| p.0,
    ) + models_keys(shards.push(e).drop_first()));
    if shards.len() == 0 {
        assert(shards.push(e).drop_first() =~= Seq::<ShardModel>::empty());
        assert(shards.push(e)[0] == e);
        assert(models_keys(Seq::<ShardModel>::empty()) == Seq::<Seq<u8>>::empty());
        assert(models_keys(shards) == Seq::<Seq<u8>>::empty());
        assert(models_keys(shards.push(e)) =~= models_keys(shards) + e.map_values(
            |p: (Seq<u8>, Seq<u8>)| p.0,
        ));
    } else {
        assert(shards.push(e).drop_first() =~= shards.drop_first().push(e));
        lemma_models_keys_push(shards.drop_first(), e);
        assert(models_keys(shards) == shards[0].map_values(|p: (Seq<u8>, Seq<u8>)| p.0)
            + models_keys(shards.drop_first()));
        assert(shards.push(e)[0] == shards[0]);
        assert(models_keys(shards.push(e)) =~= models_keys(shards) + e.map_values(
            |p: (Seq<u8>, Seq<u8>)| p.0,
        ));
    }
}

/// The sharded cache: a fixed number of independently bounded LRU shards.
pub struct ShardLruCache {
    caches: Vec<LruShard>,
}

impl ShardLruCache {
    /// The models of the shards, in index order.
    pub closed spec fn shards(&self) -> CacheModel {
        self.caches@.map_values(|sh: LruShard| sh@)
    }

    /// The capacity of each shard.
    pub closed spec fn cap(&self) -> nat {
        self.caches@[0].cap()
    }

    /// Representation invariant tying each held shard to the model.
    pub closed spec fn caches_ok(&self) -> bool {
        forall|i: int|
            0 <= i < self.caches@.len() ==> (#[trigger] self.caches@[i]).wf()
                && self.caches@[i].cap() == self.cap()
    }

    pub open spec fn wf(&self) -> bool {
        shards_wf(self.shards(), self.cap()) && self.caches_ok()
    }

    /// Builds `NUM_SHARDS` empty shards, each with capacity
    /// `ceil(cap / NUM_SHARDS)`.
    pub fn new(cap: usize) -> (r: Self)
        requires
            1 <= cap <= usize::MAX - (NUM_SHARDS - 1),
        ensures
            r.wf(),
            r.shards() == empty_shards(),
            r.cap() == per_shard_capacity(cap as nat),
    {
        let per_shard_cap = (cap - 1 + NUM_SHARDS) / NUM_SHARDS;
        proof {
            lemma_fundamental_div_mod(cap - 1 + NUM_SHARDS, NUM_SHARDS as int);
        }
        let mut caches: Vec<LruShard> = Vec::new();
        let mut i: usize = 0;
        while i < NUM_SHARDS
            invariant
                i <= NUM_SHARDS,
                caches@.len() == i,
                per_shard_cap as nat == per_shard_capacity(cap as nat),
                1 <= per_shard_cap,
                NUM_SHARDS * per_shard_cap <= usize::MAX,
                forall|j: int|
                    0 <= j < i ==> (#[trigger] caches@[j]).wf() && caches@[j].cap()
                        == per_shard_cap as nat && caches@[j]@ == Seq::<(Seq<u8>, Seq<u8>)>::empty(),
            decreases NUM_SHARDS - i,
        {
            caches.push(LruShard::new(per_shard_cap));
            i = i + 1;
        }
        let r = ShardLruCache { caches };
        proof {
            assert(r.shards() =~= empty_shards());
        }
        r
    }

    /// Routes to the key's shard and delegates; a full shard evicts its own
    /// least recently used entry. Returns the previous value under the key.
    pub fn put(&mut self, key: Vec<u8>, value: Vec<u8>) -> (r: Option<Vec<u8>>)
        requires
            old(self).wf(),
        ensures
            final (self).wf(),
            final (self).cap() == old(self).cap(),
            final (self).shards() == cache_put(old(self).shards(), old(self).cap(), key@, value@),
            r.deep_view() == cache_lookup(old(self).shards(), key@),
    {
        let idx = route(&key);
        let ghost old_shards = self.shards();
        let ghost cap = self.cap();
        let ghost k = key@;
        let ghost v = value@;
        let sh = &mut self.caches[idx];
        let r = sh.put(key, value);
        proof {
            lemma_sm_put_props(old_shards[idx as int], cap, k, v);
            assert(self.shards() =~= cache_put(old_shards, cap, k, v));
            lemma_shards_update_wf(old_shards, cap, idx as int, self.shards()[idx as int], k);
        }
        r
    }

    /// Routes to the key's shard and delegates; a hit is promoted to most
    /// recently used within that shard.
    pub fn get(&mut self, key: &Vec<u8>) -> (r: Option<Vec<u8>>)
        requires
            old(self).wf(),
        ensures
            final (self).wf(),
            final (self).cap() == old(self).cap(),
            final (self).shards() == cache_get(old(self).shards(), key@),
            r.deep_view() == cache_lookup(old(self).shards(), key@),
    {
        let idx = route(key);
        let ghost old_shards = self.shards();
        let ghost cap = self.cap();
        let ghost k = key@;
        let sh = &mut self.caches[idx];
        let r = sh.get(key);
        proof {
            lemma_sm_get_props(old_shards[idx as int], k);
            assert(self.shards() =~= cache_get(old_shards, k));
            lemma_shards_update_wf(old_shards, cap, idx as int, self.shards()[idx as int], k);
        }
        r
    }

    /// Removes and returns the entry under the key, if any.
    pub fn pop(&mut self, key: &Vec<u8>) -> (r: Option<Vec<u8>>)
        requires
            old(self).wf(),
        ensures
            final (self).wf(),
            final (self).cap() == old(self).cap(),
            final (self).shards() == cache_remove(old(self).shards(), key@),
            r.deep_view() == cache_lookup(old(self).shards(), key@),
    {
        let idx = route(key);
        let ghost old_shards = self.shards();
        let ghost cap = self.cap();
        let ghost k = key@;
        let sh = &mut self.caches[idx];
        let r = sh.pop(key);
        proof {
            lemma_sm_remove_props(old_shards[idx as int], k);
            assert(self.shards() =~= cache_remove(old_shards, k));
            lemma_shards_update_wf(old_shards, cap, idx as int, self.shards()[idx as int], k);
        }
        r
    }

    /// Membership without touching any recency order.
    pub fn contains(&self, key: &Vec<u8>) -> (r: bool)
        requires
            self.wf(),
        ensures
            r == cache_has(self.shards(), key@),
    {
        let idx = route(key);
        self.caches[idx].contains(key)
    }

    /// The total entry count: the sum of the per-shard lengths. Under
    /// concurrent use by an embedding application this is a point-in-time
    /// approximation, not an atomic snapshot.
    pub fn len(&self) -> (r: usize)
        requires
            self.wf(),
        ensures
            r as nat == models_len(self.shards()),
    {
        let ghost shards = self.shards();
        let mut total: usize = 0;
        let mut i: usize = 0;
        while i < NUM_SHARDS
            invariant
                self.wf(),
                shards == self.shards(),
                i <= NUM_SHARDS,
                total as nat == models_len(shards.take(i as int)),
                total <= i * self.cap(),
            decreases NUM_SHARDS - i,
        {
            let part = self.caches[i].len();
            proof {
                assert(shards.take(i + 1 as int) =~= shards.take(i as int).push(shards[i as int]));
                lemma_models_len_push(shards.take(i as int), shards[i as int]);
                assert((i + 1) * self.cap() == i * self.cap() + self.cap()) by (nonlinear_arith);
                assert(NUM_SHARDS * self.cap() <= usize::MAX);
                assert(i + 1 <= NUM_SHARDS);
                assert((i + 1) * self.cap() <= NUM_SHARDS * self.cap()) by (nonlinear_arith)
                    requires
                        i + 1 <= NUM_SHARDS,
                        self.cap() >= 0,
                ;
            }
            total = total + part;
            i = i + 1;
        }
        proof {
            assert(shards.take(NUM_SHARDS as int) =~= shards);
        }
        total
    }

    /// A snapshot of all keys, shard by shard in index order, most recently
    /// used first within each shard. Not an atomic snapshot of the whole
    /// cache when an embedding application mutates it concurrently.
    pub fn keys(&self) -> (r: Vec<Vec<u8>>)
        requires
            self.wf(),
        ensures
            r.deep_view() == models_keys(self.shards()),
    {
        let ghost shards = self.shards();
        let mut all_keys: Vec<Vec<u8>> = Vec::new();
        let mut i: usize = 0;
        while i < NUM_SHARDS
            invariant
                self.wf(),
                shards == self.shards(),
                i <= NUM_SHARDS,
                all_keys.deep_view() == models_keys(shards.take(i as int)),
            decreases NUM_SHARDS - i,
        {
            let mut part = self.caches[i].keys();
            proof {
                assert(shards.take(i + 1 as int) =~= shards.take(i as int).push(shards[i as int]));
                lemma_models_keys_push(shards.take(i as int), shards[i as int]);
            }
            let ghost before = all_keys.deep_view();
            let ghost part_view = part.deep_view();
            all_keys.append(&mut part);
            proof {
                assert(all_keys.deep_view() =~= before + part_view);
            }
            i = i + 1;
        }
        proof {
            assert(shards.take(NUM_SHARDS as int) =~= shards);
        }
        all_keys
    }
}

/// An update of one shard with distinct keys, a respected capacity and only
/// entries that are the routed key or carried over keeps the whole model
/// well-formed.
pub proof fn lemma_shards_update_wf(
    shards: CacheModel,
    cap: nat,
    idx: int,
    updated: ShardModel,
    k: Seq<u8>,
)
    requires
        shards_wf(shards, cap),
        idx == route_spec(k),
        0 <= idx < shards.len(),
        crate::shard::sm_distinct(updated),
        updated.len() <= cap,
        forall|j: int|
            0 <= j < updated.len() ==> #[trigger] updated[j] == (k, updated[j].1)
                || shards[idx].contains(updated[j]),
    ensures
        shards_wf(shards.update(idx, updated), cap),
{
    let r = shards.update(idx, updated);
    assert forall|i: int, j: int|
        0 <= i < r.len() && 0 <= j < r[i].len() implies #[trigger] route_spec(r[i][j].0) == i by {
        if i == idx {
            if updated[j] == (k, updated[j].1) {
                assert(route_spec(updated[j].0) == idx);
            } else {
                let w = choose|x: int|
                    0 <= x < shards[idx].len() && shards[idx][x] == updated[j];
                assert(route_spec(shards[idx][w].0) == idx);
            }
        } else {
            assert(r[i] == shards[i]);
        }
    }
}

} // verus!
