//! The namespaced store facade.
//!
//! [`CacheStorage`] adapts the partitioned cache to the store surface shared
//! with persistent backends: callers address entries by a namespace string
//! and a raw byte key, which are composed into one flat byte key
//! ([`crate::keys::compose_key`]). Read-path operations and whole batches
//! drive the optional metrics recorder; single writes only refresh the item
//! gauge, so the per-call recording cost stays off the hot write path and
//! writes are accounted at batch granularity.

use crate::cache::{
    cache_get, cache_has, cache_lookup, cache_put, cache_remove, empty_shards, models_keys,
    models_len, per_shard_capacity, CacheModel, ShardLruCache,
};
use crate::keys::{compose_key, store_key};
use crate::router::NUM_SHARDS;
use vstd::prelude::*;

verus! {

/// The capacity used when none is requested.
pub const DEFAULT_CACHE_SIZE: usize = 20000;

/// One batched operation on a key.
pub enum WriteOp {
    Value(Vec<u8>),
    Deletion,
}

/// The spec-level image of a [`WriteOp`].
pub enum SpecOp {
    Value(Seq<u8>),
    Deletion,
}

impl View for WriteOp {
    type V = SpecOp;

    open spec fn view(&self) -> SpecOp {
        match self {
            WriteOp::Value(v) => SpecOp::Value(v@),
            WriteOp::Deletion => SpecOp::Deletion,
        }
    }
}

/// An ordered sequence of keyed operations, replayed in listed order.
pub struct WriteBatch {
    pub rows: Vec<(Vec<u8>, WriteOp)>,
}

impl WriteBatch {
    /// The batch as (key, operation) pairs, in order.
    pub open spec fn ops(&self) -> Seq<(Seq<u8>, SpecOp)> {
        self.rows@.map_values(|row: (Vec<u8>, WriteOp)| (row.0@, row.1@))
    }

    pub fn new() -> (r: Self)
        ensures
            r.ops() == Seq::<(Seq<u8>, SpecOp)>::empty(),
    {
        let r = WriteBatch { rows: Vec::new() };
        proof {
            assert(r.ops() =~= Seq::<(Seq<u8>, SpecOp)>::empty());
        }
        r
    }

    /// Appends a "set to value" operation.
    pub fn put(&mut self, key: Vec<u8>, value: Vec<u8>)
        ensures
            final (self).ops() == old(self).ops().push((key@, SpecOp::Value(value@))),
    {
        let ghost before = self.ops();
        self.rows.push((key, WriteOp::Value(value)));
        proof {
            assert(self.ops() =~= before.push((key@, SpecOp::Value(value@))));
        }
    }

    /// Appends a deletion.
    pub fn delete(&mut self, key: Vec<u8>)
        ensures
            final (self).ops() == old(self).ops().push((key@, SpecOp::Deletion)),
    {
        let ghost before = self.ops();
        self.rows.push((key, WriteOp::Deletion));
        proof {
            assert(self.ops() =~= before.push((key@, SpecOp::Deletion)));
        }
    }
}

/// The error surfaced by batch writes. The in-memory cache itself cannot
/// fail, and the bundled recorder cannot either, so this store never
/// produces it; the channel exists so that callers of the shared store
/// surface see failures from backends or recorders that can fail, distinct
/// from any state change.
#[derive(Debug)]
pub enum StoreError {
    Recorder,
}

/// A plain metrics recorder: a gauge for the current item count and a
/// counter of recorded operations (reads and whole batches). Duration
/// recording is the embedding application's concern; the contracts here pin
/// which operations are recorded at all.
pub struct StorageMetrics {
    pub cache_items: u64,
    pub recorded_ops: u64,
}

impl StorageMetrics {
    pub fn new() -> (r: Self)
        ensures
            r.cache_items == 0,
            r.recorded_ops == 0,
    {
        StorageMetrics { cache_items: 0, recorded_ops: 0 }
    }
}

/// The recorder after one recorded (read-path or batch) operation.
pub open spec fn record_read(m: Option<StorageMetrics>) -> Option<StorageMetrics> {
    match m {
        None => None,
        Some(m0) => Some(
            StorageMetrics {
                cache_items: m0.cache_items,
                recorded_ops: if m0.recorded_ops == u64::MAX {
                    u64::MAX
                } else {
                    (m0.recorded_ops + 1) as u64
                },
            },
        ),
    }
}

/// The recorder after the item gauge is set to `items`.
pub open spec fn record_len(m: Option<StorageMetrics>, items: u64) -> Option<StorageMetrics> {
    match m {
        None => None,
        Some(m0) => Some(StorageMetrics { cache_items: items, recorded_ops: m0.recorded_ops }),
    }
}

spec fn rec_ops(m: Option<StorageMetrics>) -> u64 {
    match m {
        None => 0,
        Some(m0) => m0.recorded_ops,
    }
}

/// The cache model after a batch is replayed in listed order.
pub open spec fn apply_ops(
    shards: CacheModel,
    cap: nat,
    prefix: Seq<char>,
    ops: Seq<(Seq<u8>, SpecOp)>,
) -> CacheModel
    decreases ops.len(),
{
    if ops.len() == 0 {
        shards
    } else {
        let rest = apply_ops(shards, cap, prefix, ops.drop_last());
        match ops.last().1 {
            SpecOp::Value(v) => cache_put(rest, cap, store_key(prefix, ops.last().0), v),
            SpecOp::Deletion => cache_remove(rest, store_key(prefix, ops.last().0)),
        }
    }
}

/// The namespaced, metered store over the partitioned cache. Volatile by
/// design: contents live for the process only.
pub struct CacheStorage {
    cache: ShardLruCache,
    metrics: Option<StorageMetrics>,
}

impl CacheStorage {
    /// The cache model behind the facade.
    pub closed spec fn shards(&self) -> CacheModel {
        self.cache.shards()
    }

    /// The per-shard capacity.
    pub closed spec fn cap(&self) -> nat {
        self.cache.cap()
    }

    /// The metrics recorder, absent when none was injected.
    pub closed spec fn recorder(&self) -> Option<StorageMetrics> {
        self.metrics
    }

    /// The representation invariant of the held cache.
    pub closed spec fn inner_wf(&self) -> bool {
        self.cache.wf()
    }

    pub open spec fn wf(&self) -> bool {
        crate::cache::shards_wf(self.shards(), self.cap()) && self.inner_wf()
    }

    /// A store with the default capacity and an optional recorder.
    pub fn new(metrics: Option<StorageMetrics>) -> (r: Self)
        ensures
            r.wf(),
            r.shards() == empty_shards(),
            r.cap() == per_shard_capacity(DEFAULT_CACHE_SIZE as nat),
            r.recorder() == metrics,
    {
        CacheStorage { cache: ShardLruCache::new(DEFAULT_CACHE_SIZE), metrics }
    }

    /// A store with the given total capacity (an item count, split over the
    /// shards with the division rounded up) and an optional recorder.
    pub fn new_with_capacity(size: usize, metrics: Option<StorageMetrics>) -> (r: Self)
        requires
            1 <= size <= usize::MAX - (NUM_SHARDS - 1),
        ensures
            r.wf(),
            r.shards() == empty_shards(),
            r.cap() == per_shard_capacity(size as nat),
            r.recorder() == metrics,
    {
        CacheStorage { cache: ShardLruCache::new(size), metrics }
    }

    fn record_read_op(&mut self)
        ensures
            final (self).cache == old(self).cache,
            final (self).recorder() == record_read(old(self).recorder()),
    {
        match &mut self.metrics {
            Some(m) => {
                m.recorded_ops = m.recorded_ops.saturating_add(1);
            },
            None => {},
        }
    }

    fn record_items_gauge(&mut self)
        requires
            old(self).wf(),
        ensures
            final (self).cache == old(self).cache,
            final (self).recorder() == record_len(
                old(self).recorder(),
                models_len(old(self).shards()) as u64,
            ),
    {
        if self.metrics.is_some() {
            let items = self.cache.len();
            match &mut self.metrics {
                Some(m) => {
                    m.cache_items = items as u64;
                },
                None => {},
            }
        }
    }

    /// Reads the value cached under (namespace, key), promoting a hit to
    /// most recently used; a recorded read-path operation.
    pub fn get(&mut self, prefix_name: &str, key: Vec<u8>) -> (r: Option<Vec<u8>>)
        requires
            old(self).wf(),
        ensures
            final (self).wf(),
            final (self).cap() == old(self).cap(),
            final (self).shards() == cache_get(
                old(self).shards(),
                store_key(prefix_name@, key@),
            ),
            r.deep_view() == cache_lookup(old(self).shards(), store_key(prefix_name@, key@)),
            final (self).recorder() == record_read(old(self).recorder()),
    {
        let composite = compose_key(prefix_name.to_owned(), key);
        let r = self.cache.get(&composite);
        self.record_read_op();
        r
    }

    /// Caches `value` under (namespace, key), evicting within the key's
    /// shard if it is full. Not individually recorded: only the item gauge
    /// is refreshed, and batches account for writes.
    pub fn put(&mut self, prefix_name: &str, key: Vec<u8>, value: Vec<u8>)
        requires
            old(self).wf(),
        ensures
            final (self).wf(),
            final (self).cap() == old(self).cap(),
            final (self).shards() == cache_put(
                old(self).shards(),
                old(self).cap(),
                store_key(prefix_name@, key@),
                value@,
            ),
            final (self).recorder() == record_len(
                old(self).recorder(),
                models_len(final (self).shards()) as u64,
            ),
    {
        let composite = compose_key(prefix_name.to_owned(), key);
        let _ = self.cache.put(composite, value);
        self.record_items_gauge();
    }

    /// Membership under (namespace, key) without touching recency; a
    /// recorded read-path operation.
    pub fn contains_key(&mut self, prefix_name: &str, key: Vec<u8>) -> (r: bool)
        requires
            old(self).wf(),
        ensures
            final (self).wf(),
            final (self).cap() == old(self).cap(),
            final (self).shards() == old(self).shards(),
            r == cache_has(old(self).shards(), store_key(prefix_name@, key@)),
            final (self).recorder() == record_read(old(self).recorder()),
    {
        let composite = compose_key(prefix_name.to_owned(), key);
        let r = self.cache.contains(&composite);
        self.record_read_op();
        r
    }

    /// Drops the entry under (namespace, key), if any. Like `put`, not
    /// individually recorded.
    pub fn remove(&mut self, prefix_name: &str, key: Vec<u8>)
        requires
            old(self).wf(),
        ensures
            final (self).wf(),
            final (self).cap() == old(self).cap(),
            final (self).shards() == cache_remove(
                old(self).shards(),
                store_key(prefix_name@, key@),
            ),
            final (self).recorder() == record_len(
                old(self).recorder(),
                models_len(final (self).shards()) as u64,
            ),
    {
        let composite = compose_key(prefix_name.to_owned(), key);
        let _ = self.cache.pop(&composite);
        self.record_items_gauge();
    }

    /// Replays the batch entry by entry, in listed order, against this
    /// namespace; the whole replay counts as one recorded operation. The
    /// replay itself cannot fail here, so the result is always `Ok`; the
    /// `Result` keeps the shared store surface, where a backend or a
    /// recorder may fail.
    pub fn write_batch(&mut self, prefix_name: &str, batch: WriteBatch) -> (r: Result<
        (),
        StoreError,
    >)
        requires
            old(self).wf(),
        ensures
            final (self).wf(),
            final (self).cap() == old(self).cap(),
            final (self).shards() == apply_ops(
                old(self).shards(),
                old(self).cap(),
                prefix_name@,
                batch.ops(),
            ),
            final (self).recorder() == record_read(
                record_len(old(self).recorder(), models_len(final (self).shards()) as u64),
            ),
            r is Ok,
    {
        let ghost old_shards = self.shards();
        let ghost cap = self.cap();
        let ghost old_rec = self.recorder();
        let mut i: usize = 0;
        while i < batch.rows.len()
            invariant
                old(self).wf(),
                self.wf(),
                self.cap() == cap,
                i <= batch.rows.len(),
                self.shards() == apply_ops(old_shards, cap, prefix_name@, batch.ops().take(i as int)),
                self.recorder() is Some <==> old_rec is Some,
                rec_ops(self.recorder()) == rec_ops(old_rec),
            decreases batch.rows.len() - i,
        {
            let row = &batch.rows[i];
            let key = row.0.clone();
            match &row.1 {
                WriteOp::Value(value) => {
                    self.put(prefix_name, key, value.clone());
                },
                WriteOp::Deletion => {
                    self.remove(prefix_name, key);
                },
            }
            proof {
                let ops = batch.ops();
                assert(ops.take(i + 1 as int).drop_last() =~= ops.take(i as int));
                assert(ops.take(i + 1 as int).last() == ops[i as int]);
                assert(ops[i as int] == (batch.rows@[i as int].0@, batch.rows@[i as int].1@));
            }
            i = i + 1;
        }
        proof {
            assert(batch.ops().take(batch.rows@.len() as int) =~= batch.ops());
        }
        self.record_items_gauge();
        self.record_read_op();
        Ok(())
    }

    /// The total entry count: the sum of the per-shard lengths, read shard
    /// by shard.
    pub fn get_len(&self) -> (r: u64)
        requires
            self.wf(),
        ensures
            r as nat == models_len(self.shards()),
    {
        self.cache.len() as u64
    }

    /// All cached composite keys, shard by shard, most recently used first
    /// within each shard.
    pub fn keys(&self) -> (r: Vec<Vec<u8>>)
        requires
            self.wf(),
        ensures
            r.deep_view() == models_keys(self.shards()),
    {
        self.cache.keys()
    }

    /// The current state of the metrics recorder, if one was injected.
    pub fn metrics_ref(&self) -> (r: &Option<StorageMetrics>)
        ensures
            *r == self.recorder(),
    {
        &self.metrics
    }

    /// Identical to `put`: this volatile cache has nothing to flush, the
    /// name only mirrors the surface shared with durable backends.
    pub fn put_sync(&mut self, prefix_name: &str, key: Vec<u8>, value: Vec<u8>)
        requires
            old(self).wf(),
        ensures
            final (self).wf(),
            final (self).cap() == old(self).cap(),
            final (self).shards() == cache_put(
                old(self).shards(),
                old(self).cap(),
                store_key(prefix_name@, key@),
                value@,
            ),
            final (self).recorder() == record_len(
                old(self).recorder(),
                models_len(final (self).shards()) as u64,
            ),
    {
        self.put(prefix_name, key, value)
    }

    /// Identical to `write_batch`, for the same reason as `put_sync`.
    pub fn write_batch_sync(&mut self, prefix_name: &str, batch: WriteBatch) -> (r: Result<
        (),
        StoreError,
    >)
        requires
            old(self).wf(),
        ensures
            final (self).wf(),
            final (self).cap() == old(self).cap(),
            final (self).shards() == apply_ops(
                old(self).shards(),
                old(self).cap(),
                prefix_name@,
                batch.ops(),
            ),
            final (self).recorder() == record_read(
                record_len(old(self).recorder(), models_len(final (self).shards()) as u64),
            ),
            r is Ok,
    {
        self.write_batch(prefix_name, batch)
    }
}

impl Default for CacheStorage {
    /// A store with the default capacity and no recorder.
    fn default() -> (r: Self)
        ensures
            r.wf(),
            r.shards() == empty_shards(),
            r.cap() == per_shard_capacity(DEFAULT_CACHE_SIZE as nat),
            r.recorder() is None,
    {
        Self::new(None)
    }
}

} // verus!
