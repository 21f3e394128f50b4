//! Looking decisions up in a stored shard, and changing it.
use crate::cache::entry::{
    decode_shard, law_shard_round_trip, lemma_decoded_finite, shard_decoded, shard_encoded,
    CacheEntry, CacheEntryModel, CacheShard,
};
use crate::cache::shard::{
    enforce_quota, evict_expired, leaves_before, lemma_within_quota, live_entries,
    shard_id_from_key, shard_name, shard_of, shard_shared_key, within_quota, NUM_SHARDS,
};
use crate::model::{optional_view, views};
use crate::text::lemma_text_antisymmetric;
use vstd::prelude::*;
use vstd::set_lib::{lemma_len_subset, lemma_subset_equality};

verus! {

/// How often a change to a shard is tried; another writer may come between reading and writing.
pub const WRITE_ATTEMPTS: u32 = 3;

/// The decision that a shard has for a key, unless it has expired.
pub open spec fn fresh_entry(
    shard: Map<Seq<char>, CacheEntryModel>,
    key: Seq<char>,
    now_ms: u64,
) -> Option<CacheEntryModel> {
    if shard.contains_key(key) && shard[key].expires_at_ms > now_ms {
        Some(shard[key])
    } else {
        None
    }
}

/// The decision that a stored shard has for a key, unless it has expired.
pub fn find_entry(bytes: Option<&[u8]>, cache_key: &str, now_ms: u64) -> (entry: Option<CacheEntry>)
    ensures
        optional_view(entry) == fresh_entry(
            shard_decoded(optional_view(bytes)),
            cache_key@,
            now_ms,
        ),
{
    let shard = decode_shard(bytes);
    match shard.entries.get(cache_key) {
        Some(entry) => if entry.expires_at_ms <= now_ms {
            None
        } else {
            Some(entry.clone())
        },
        None => None,
    }
}

/// A change to a shard.
#[derive(Debug, PartialEq)]
pub enum ShardChange {
    /// What has expired goes, a decision comes in, and the quota is enforced.
    Store { cache_key: String, entry: CacheEntry, quota: usize },
    /// One decision goes.
    Remove { cache_key: String },
    /// Every decision goes.
    Clear,
}

/// The mathematical [`ShardChange`].
pub enum ShardChangeModel {
    Store { cache_key: Seq<char>, entry: CacheEntryModel, quota: nat },
    Remove { cache_key: Seq<char> },
    Clear,
}

impl View for ShardChange {
    type V = ShardChangeModel;

    open spec fn view(&self) -> ShardChangeModel {
        match *self {
            ShardChange::Store { cache_key, entry, quota } => ShardChangeModel::Store {
                cache_key: cache_key@,
                entry: entry@,
                quota: quota as nat,
            },
            ShardChange::Remove { cache_key } => ShardChangeModel::Remove {
                cache_key: cache_key@,
            },
            ShardChange::Clear => ShardChangeModel::Clear,
        }
    }
}

impl ShardChangeModel {
    /// A shard after the change.
    pub open spec fn applied(
        self,
        shard: Map<Seq<char>, CacheEntryModel>,
        now_ms: u64,
    ) -> Map<Seq<char>, CacheEntryModel> {
        match self {
            ShardChangeModel::Store { cache_key, entry, quota } => within_quota(
                live_entries(shard, now_ms).insert(cache_key, entry),
                quota,
            ),
            ShardChangeModel::Remove { cache_key } => shard.remove(cache_key),
            ShardChangeModel::Clear => Map::empty(),
        }
    }

    /// What to store in place of what is stored.
    pub open spec fn bytes_after(self, current: Option<Seq<u8>>, now_ms: u64) -> Seq<u8> {
        shard_encoded(self.applied(shard_decoded(current), now_ms))
    }
}

/// A change to the shard with the given name, and how often it may still be tried.
#[derive(Debug, PartialEq)]
pub struct ShardUpdate {
    pub shared_key: String,
    pub change: ShardChange,
    pub attempts: u32,
}

/// The mathematical [`ShardUpdate`].
pub struct ShardUpdateModel {
    pub shared_key: Seq<char>,
    pub change: ShardChangeModel,
    pub attempts: u32,
}

impl View for ShardUpdate {
    type V = ShardUpdateModel;

    open spec fn view(&self) -> ShardUpdateModel {
        ShardUpdateModel {
            shared_key: self.shared_key@,
            change: self.change@,
            attempts: self.attempts,
        }
    }
}

/// The update that stores a decision.
pub open spec fn store_update(
    cache_key: Seq<char>,
    entry: CacheEntryModel,
    quota: nat,
) -> ShardUpdateModel {
    ShardUpdateModel {
        shared_key: shard_name(shard_of(cache_key)),
        change: ShardChangeModel::Store { cache_key, entry, quota },
        attempts: WRITE_ATTEMPTS,
    }
}

/// The update that purges one key.
pub open spec fn purge_key_update(cache_key: Seq<char>) -> ShardUpdateModel {
    ShardUpdateModel {
        shared_key: shard_name(shard_of(cache_key)),
        change: ShardChangeModel::Remove { cache_key },
        attempts: WRITE_ATTEMPTS,
    }
}

/// The updates that purge the whole cache, one for each shard.
pub open spec fn purge_all_updates() -> Seq<ShardUpdateModel> {
    Seq::new(
        NUM_SHARDS as nat,
        |id: int|
            ShardUpdateModel {
                shared_key: shard_name(id as nat),
                change: ShardChangeModel::Clear,
                attempts: WRITE_ATTEMPTS,
            },
    )
}

impl ShardUpdateModel {
    /// The update after one attempt to write.
    pub open spec fn after_write(self, written: bool) -> ShardUpdateModel {
        ShardUpdateModel {
            attempts: if written || self.attempts == 0 {
                0
            } else {
                (self.attempts - 1) as u32
            },
            ..self
        }
    }

    /// The number of writes that are made where each comes out as `outcomes` says.
    pub open spec fn writes(self, outcomes: spec_fn(nat) -> bool, from: nat) -> nat
        decreases self.attempts,
    {
        if self.attempts == 0 {
            0
        } else {
            1 + self.after_write(outcomes(from)).writes(outcomes, from + 1)
        }
    }
}

impl ShardUpdate {
    /// The update that stores a decision.
    pub fn store(cache_key: &str, entry: CacheEntry, quota: usize) -> (update: Self)
        ensures
            update@ == store_update(cache_key@, entry@, quota as nat),
    {
        ShardUpdate {
            shared_key: shard_shared_key(shard_id_from_key(cache_key)),
            change: ShardChange::Store { cache_key: cache_key.to_owned(), entry, quota },
            attempts: WRITE_ATTEMPTS,
        }
    }

    /// The update that purges one key.
    pub fn purge_key(cache_key: &str) -> (update: Self)
        ensures
            update@ == purge_key_update(cache_key@),
    {
        ShardUpdate {
            shared_key: shard_shared_key(shard_id_from_key(cache_key)),
            change: ShardChange::Remove { cache_key: cache_key.to_owned() },
            attempts: WRITE_ATTEMPTS,
        }
    }

    /// The updates that purge the whole cache.
    pub fn purge_all() -> (updates: Vec<Self>)
        ensures
            views(updates@) == purge_all_updates(),
    {
        let mut updates: Vec<ShardUpdate> = Vec::new();
        let mut shard_id: usize = 0;
        while shard_id < NUM_SHARDS
            invariant
                shard_id <= NUM_SHARDS,
                views(updates@) =~= purge_all_updates().take(shard_id as int),
            decreases NUM_SHARDS - shard_id,
        {
            let ghost before = updates@;
            let update = ShardUpdate {
                shared_key: shard_shared_key(shard_id),
                change: ShardChange::Clear,
                attempts: WRITE_ATTEMPTS,
            };
            updates.push(update);
            proof {
                assert(views(updates@) =~= views(before).push(update@));
            }
            shard_id = shard_id + 1;
        }
        updates
    }

    /// Whether the update is to be tried, or tried again.
    pub fn is_pending(&self) -> (pending: bool)
        ensures
            pending == (self@.attempts > 0),
    {
        self.attempts > 0
    }

    /// What to store in place of what is stored.
    pub fn next_bytes(&self, current: Option<&[u8]>, now_ms: u64) -> (bytes: Vec<u8>)
        ensures
            bytes@ == self@.change.bytes_after(optional_view(current), now_ms),
    {
        match &self.change {
            ShardChange::Store { cache_key, entry, quota } => {
                let mut shard = decode_shard(current);
                evict_expired(&mut shard, now_ms);
                shard.entries.insert(cache_key.clone(), entry.clone());
                enforce_quota(&mut shard, *quota);
                shard.encode_to_vec()
            },
            ShardChange::Remove { cache_key } => {
                let mut shard = decode_shard(current);
                shard.entries.remove(cache_key.as_str());
                shard.encode_to_vec()
            },
            ShardChange::Clear => CacheShard::default().encode_to_vec(),
        }
    }

    /// Takes note of whether an attempt to write went through.
    pub fn record_write(&mut self, written: bool)
        ensures
            final(self)@ == old(self)@.after_write(written),
    {
        if written || self.attempts == 0 {
            self.attempts = 0;
        } else {
            self.attempts = self.attempts - 1;
        }
    }
}

/// A decision that has expired is never served.
pub proof fn law_expired_not_served(
    shard: Map<Seq<char>, CacheEntryModel>,
    key: Seq<char>,
    now_ms: u64,
)
    ensures
        fresh_entry(shard, key, now_ms) matches Some(entry) ==> entry.expires_at_ms > now_ms,
        shard.contains_key(key) && shard[key].expires_at_ms <= now_ms ==> fresh_entry(
            shard,
            key,
            now_ms,
        ) is None,
{
}

/// Taking expired decisions out changes nothing that is served, then or later.
pub proof fn law_eviction_unnoticed(
    shard: Map<Seq<char>, CacheEntryModel>,
    key: Seq<char>,
    evicted_ms: u64,
    now_ms: u64,
)
    requires
        evicted_ms <= now_ms,
    ensures
        fresh_entry(live_entries(shard, evicted_ms), key, now_ms) == fresh_entry(
            shard,
            key,
            now_ms,
        ),
{
}

/// A key that was purged is not served, and every other key is served as before.
pub proof fn law_purged_key_not_served(
    shard: Map<Seq<char>, CacheEntryModel>,
    purged: Seq<char>,
    other: Seq<char>,
    purged_ms: u64,
    now_ms: u64,
)
    ensures
        fresh_entry(
            purge_key_update(purged).change.applied(shard, purged_ms),
            purged,
            now_ms,
        ) is None,
        other != purged ==> fresh_entry(
            purge_key_update(purged).change.applied(shard, purged_ms),
            other,
            now_ms,
        ) == fresh_entry(shard, other, now_ms),
{
}

/// A purge of the whole cache reaches the shard of every key, and leaves nothing to serve in it.
pub proof fn law_purge_all_serves_nothing(
    shard: Map<Seq<char>, CacheEntryModel>,
    key: Seq<char>,
    purged_ms: u64,
    now_ms: u64,
)
    ensures
        ({
            let update = purge_all_updates()[shard_of(key) as int];
            &&& shard_of(key) < purge_all_updates().len()
            &&& update.shared_key == shard_name(shard_of(key))
            &&& fresh_entry(update.change.applied(shard, purged_ms), key, now_ms) is None
        }),
{
}

/// A decision that was stored is served until it expires, provided that it is not the quota's
/// next victim: there is room for it, or whatever else is live leaves before it.
pub proof fn law_stored_is_served(
    shard: Map<Seq<char>, CacheEntryModel>,
    key: Seq<char>,
    entry: CacheEntryModel,
    quota: nat,
    stored_ms: u64,
    now_ms: u64,
)
    requires
        shard.dom().finite(),
        quota > 0,
        now_ms < entry.expires_at_ms,
        live_entries(shard, stored_ms).insert(key, entry).len() <= quota || forall|other: Seq<char>|
            #[trigger] live_entries(shard, stored_ms).contains_key(other) && other != key
                ==> leaves_before(live_entries(shard, stored_ms).insert(key, entry), other, key),
    ensures
        fresh_entry(
            store_update(key, entry, quota).change.applied(shard, stored_ms),
            key,
            now_ms,
        ) == Some(entry),
{
    let live = live_entries(shard, stored_ms);
    lemma_live_finite(shard, stored_ms);
    let all = live.insert(key, entry);
    lemma_within_quota(all, quota);
    let kept = within_quota(all, quota);
    if !kept.contains_key(key) {
        if all.len() <= quota {
            lemma_subset_equality(kept.dom(), all.dom());
            assert(all.contains_key(key));
        } else {
            let other = kept.dom().choose();
            assert(kept.contains_key(other));
            assert(all.contains_key(other));
            assert(leaves_before(all, key, other));
            assert(live.contains_key(other));
            assert(leaves_before(all, other, key));
            lemma_text_antisymmetric(key, other);
        }
    }
    assert(all.contains_key(key));
}

pub proof fn lemma_live_finite(shard: Map<Seq<char>, CacheEntryModel>, now_ms: u64)
    requires
        shard.dom().finite(),
    ensures
        live_entries(shard, now_ms).dom().finite(),
        live_entries(shard, now_ms).len() <= shard.len(),
{
    lemma_len_subset(live_entries(shard, now_ms).dom(), shard.dom());
}

proof fn lemma_applied_finite(
    change: ShardChangeModel,
    shard: Map<Seq<char>, CacheEntryModel>,
    now_ms: u64,
)
    requires
        shard.dom().finite(),
    ensures
        change.applied(shard, now_ms).dom().finite(),
{
    match change {
        ShardChangeModel::Store { cache_key, entry, quota } => {
            lemma_live_finite(shard, now_ms);
            lemma_within_quota(live_entries(shard, now_ms).insert(cache_key, entry), quota);
        },
        ShardChangeModel::Remove { .. } => {},
        ShardChangeModel::Clear => {},
    }
}

/// Storing a decision leaves no more in a shard than its quota, and nothing that has expired
/// beside the new one.
pub proof fn law_store_keeps_quota(
    shard: Map<Seq<char>, CacheEntryModel>,
    key: Seq<char>,
    entry: CacheEntryModel,
    quota: nat,
    now_ms: u64,
)
    requires
        shard.dom().finite(),
    ensures
        store_update(key, entry, quota).change.applied(shard, now_ms).len() <= quota,
        forall|other: Seq<char>|
            #[trigger] store_update(key, entry, quota).change.applied(shard, now_ms).contains_key(
                other,
            ) && other != key ==> store_update(key, entry, quota).change.applied(
                shard,
                now_ms,
            )[other].expires_at_ms > now_ms && shard.contains_key(other)
                && store_update(key, entry, quota).change.applied(shard, now_ms)[other]
                == shard[other],
{
    lemma_live_finite(shard, now_ms);
    let all = live_entries(shard, now_ms).insert(key, entry);
    lemma_within_quota(all, quota);
    let kept = within_quota(all, quota);
    assert forall|other: Seq<char>| #[trigger]
        kept.contains_key(other) && other != key implies kept[other].expires_at_ms > now_ms
        && shard.contains_key(other) && kept[other] == shard[other] by {
        assert(all.contains_key(other));
    }
}

/// What an update writes is what is read back: the shard that was stored, with the change. The
/// bound is what a buffer can hold.
pub proof fn law_write_is_read_back(
    change: ShardChangeModel,
    current: Option<Seq<u8>>,
    now_ms: u64,
)
    requires
        change.bytes_after(current, now_ms).len() <= u64::MAX,
    ensures
        shard_decoded(Some(change.bytes_after(current, now_ms))) == change.applied(
            shard_decoded(current),
            now_ms,
        ),
{
    lemma_decoded_finite(current);
    lemma_applied_finite(change, shard_decoded(current), now_ms);
    law_shard_round_trip(change.applied(shard_decoded(current), now_ms));
}

/// An update is written at least once and at most as often as it may be tried, and no more once
/// a write has gone through.
pub proof fn law_writes_are_bounded(
    update: ShardUpdateModel,
    outcomes: spec_fn(nat) -> bool,
    from: nat,
)
    ensures
        update.writes(outcomes, from) <= update.attempts,
        update.attempts > 0 ==> update.writes(outcomes, from) >= 1,
        update.attempts > 0 && outcomes(from) ==> update.writes(outcomes, from) == 1,
    decreases update.attempts,
{
    if update.attempts > 0 {
        let next = update.after_write(outcomes(from));
        law_writes_are_bounded(next, outcomes, from + 1);
    }
}

} // verus!
