//! How the cache is set up.
use crate::cache::policy::{CacheHeaderPolicy, CacheHeaderPolicyModel};
use vstd::prelude::*;

verus! {

/// How the cache is set up.
#[derive(Debug, PartialEq)]
pub struct CacheConfig {
    /// Whether decisions are cached at all.
    pub enabled: bool,
    /// How long a decision is kept, in milliseconds.
    pub ttl_ms: u64,
    /// How many decisions are kept, about, over all shards.
    pub max_entries: usize,
    /// Which headers take part in a cache key.
    pub header_policy: CacheHeaderPolicy,
}

/// The mathematical [`CacheConfig`].
pub struct CacheConfigModel {
    pub enabled: bool,
    pub ttl_ms: u64,
    pub max_entries: usize,
    pub header_policy: CacheHeaderPolicyModel,
}

impl View for CacheConfig {
    type V = CacheConfigModel;

    open spec fn view(&self) -> CacheConfigModel {
        CacheConfigModel {
            enabled: self.enabled,
            ttl_ms: self.ttl_ms,
            max_entries: self.max_entries,
            header_policy: self.header_policy@,
        }
    }
}

/// The cache where nothing is said of it.
pub open spec fn default_cache_config() -> CacheConfigModel {
    CacheConfigModel {
        enabled: false,
        ttl_ms: 60_000,
        max_entries: 1000,
        header_policy: CacheHeaderPolicyModel::AllExceptRequestId,
    }
}

impl Default for CacheConfig {
    fn default() -> (config: Self)
        ensures
            config@ == default_cache_config(),
    {
        CacheConfig {
            enabled: false,
            ttl_ms: 60_000,
            max_entries: 1000,
            header_policy: CacheHeaderPolicy::AllExceptRequestId,
        }
    }
}

impl Clone for CacheConfig {
    fn clone(&self) -> (copy: Self)
        ensures
            copy@ == self@,
    {
        CacheConfig {
            enabled: self.enabled,
            ttl_ms: self.ttl_ms,
            max_entries: self.max_entries,
            header_policy: self.header_policy.clone(),
        }
    }
}

} // verus!
