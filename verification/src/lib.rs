//! A sharded, bounded, in-memory cache tier.
//!
//! The crate provides a fixed number of independently usable LRU shards
//! ([`shard::LruShard`]), a deterministic router from byte keys to shards
//! ([`router::route`]), a partitioned cache that composes the two
//! ([`cache::ShardLruCache`]), and a namespaced store facade
//! ([`store::CacheStorage`]) that prefixes caller keys with a namespace and
//! drives an optional metrics recorder.
//!
//! Recency is tracked per shard, so the cache as a whole is only an
//! approximate LRU: an entry in a quiet shard can outlive a more recently
//! used entry that routed into a busy shard. That trade of exact global
//! recency for smaller critical sections is deliberate and is reflected in
//! the contracts, which speak of one shard at a time.

pub mod cache;
pub mod keys;
pub mod laws;
pub mod router;
pub mod shard;
pub mod store;

pub use keys::compose_key;
