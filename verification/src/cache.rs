//! The cache of authorization decisions.
pub mod config;
pub mod entry;
pub mod key;
pub mod policy;
pub mod shard;
pub mod update;

pub use config::CacheConfig;
pub use entry::{decode_shard, CacheEntry, CacheShard, CachedHeader};
pub use key::{compute_cache_key, compute_cache_key_with_policy};
pub use policy::CacheHeaderPolicy;
pub use shard::{
    enforce_quota, evict_expired, shard_id_from_key, shard_quota, shard_shared_key, NUM_SHARDS,
};
pub use update::{find_entry, ShardChange, ShardUpdate};
