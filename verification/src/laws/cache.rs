//! Laws on the cache of decisions.
use crate::cache::entry::CacheEntryModel;
use crate::cache::shard::{
    lemma_within_quota, live_entries, quota_of, shard_name, shard_of, within_quota,
};
use crate::cache::update::{
    fresh_entry, lemma_live_finite, purge_all_updates, purge_key_update, store_update,
    ShardChangeModel, ShardUpdateModel,
};
use crate::text::numbers::{decimal_text, number_spelled};
use crate::text::text_before;
use vstd::prelude::*;

verus! {

/// The shard of a key is the remainder of the hexadecimal number behind `cache:`, and the first
/// one where there is no such number.
pub proof fn law_shard_of_a_key(key: Seq<char>, digits: Seq<char>)
    ensures
        key == "cache:"@ + digits ==> shard_of(key) == (match number_spelled(
            digits,
            16,
            0xffff_ffff_ffff_ffff,
        ) {
            Some(hash) => hash % 16,
            None => 0,
        }),
        !"cache:"@.is_prefix_of(key) ==> shard_of(key) == 0,
        shard_of(key) < 16,
{
    if key == "cache:"@ + digits {
        assert(key.skip("cache:"@.len() as int) =~= digits);
        assert("cache:"@.is_prefix_of(key));
    }
}

/// A shard is stored under its number.
pub proof fn law_shard_name(id: nat)
    ensures
        shard_name(id) == "cextauthz.cache.shard."@ + decimal_text(id),
{
}

/// The quota of a shard is the least number that lets sixteen shards hold all, and one at least.
pub proof fn law_quota_is_the_least(max_entries: nat, enough: nat)
    ensures
        quota_of(max_entries) >= 1,
        16 * quota_of(max_entries) >= max_entries,
        enough >= 1 && 16 * enough >= max_entries ==> quota_of(max_entries) <= enough,
{
}

/// A decision is live exactly until its time of expiry, and eviction changes none.
pub proof fn law_live_entries(
    shard: Map<Seq<char>, CacheEntryModel>,
    now_ms: u64,
    key: Seq<char>,
)
    ensures
        live_entries(shard, now_ms).contains_key(key) <==> shard.contains_key(key) && now_ms
            < shard[key].expires_at_ms,
        live_entries(shard, now_ms).contains_key(key) ==> live_entries(shard, now_ms)[key]
            == shard[key],
{
}

/// A shard serves what it holds for a key, until that expires, and nothing else.
pub proof fn law_fresh_entry(
    shard: Map<Seq<char>, CacheEntryModel>,
    key: Seq<char>,
    now_ms: u64,
)
    ensures
        fresh_entry(shard, key, now_ms) is Some <==> shard.contains_key(key) && now_ms
            < shard[key].expires_at_ms,
        fresh_entry(shard, key, now_ms) matches Some(entry) ==> entry == shard[key],
{
}

/// A quota takes nothing from a shard that keeps it. Of another it leaves as many decisions as it
/// allows, unchanged, and those are the ones that expire last.
pub proof fn law_quota_keeps_the_latest(shard: Map<Seq<char>, CacheEntryModel>, quota: nat)
    requires
        shard.dom().finite(),
    ensures
        shard.len() <= quota ==> within_quota(shard, quota) == shard,
        shard.len() > quota ==> within_quota(shard, quota).len() == quota,
        within_quota(shard, quota).dom().finite(),
        forall|key: Seq<char>| #[trigger]
            within_quota(shard, quota).contains_key(key) ==> shard.contains_key(key)
                && within_quota(shard, quota)[key] == shard[key],
        forall|gone: Seq<char>, kept: Seq<char>|
            shard.contains_key(gone) && !#[trigger] within_quota(shard, quota).contains_key(gone)
                && #[trigger] within_quota(shard, quota).contains_key(kept) ==> (
            shard[gone].expires_at_ms < shard[kept].expires_at_ms || (shard[gone].expires_at_ms
                == shard[kept].expires_at_ms && text_before(gone, kept))),
{
    lemma_within_quota(shard, quota);
    let kept = within_quota(shard, quota);
    assert forall|key: Seq<char>| #[trigger] kept.contains_key(key) implies shard.contains_key(key)
        && kept[key] == shard[key] by {
        assert(kept.dom().contains(key));
        assert(shard.dom().contains(key));
    }
    if shard.len() <= quota {
        vstd::set_lib::lemma_subset_equality(kept.dom(), shard.dom());
        assert(kept =~= shard);
    }
}

/// A purge of a key takes that key out of the shard and leaves the rest; a purge of everything
/// leaves nothing.
pub proof fn law_purges(
    shard: Map<Seq<char>, CacheEntryModel>,
    cache_key: Seq<char>,
    other: Seq<char>,
    now_ms: u64,
)
    ensures
        !(ShardChangeModel::Remove { cache_key }).applied(shard, now_ms).contains_key(cache_key),
        other != cache_key ==> {
            let after = (ShardChangeModel::Remove { cache_key }).applied(shard, now_ms);
            &&& after.contains_key(other) <==> shard.contains_key(other)
            &&& after.contains_key(other) ==> after[other] == shard[other]
        },
        !ShardChangeModel::Clear.applied(shard, now_ms).contains_key(other),
{
}

/// Storing a decision puts it in the place of the key's own, drops what has expired and nothing
/// else, and then keeps as many decisions as the quota allows, those that expire last.
pub proof fn law_store(
    shard: Map<Seq<char>, CacheEntryModel>,
    cache_key: Seq<char>,
    entry: CacheEntryModel,
    quota: nat,
    now_ms: u64,
    full: Map<Seq<char>, CacheEntryModel>,
)
    requires
        shard.dom().finite(),
        forall|key: Seq<char>| #[trigger]
            full.contains_key(key) <==> (key == cache_key || (shard.contains_key(key) && now_ms
                < shard[key].expires_at_ms)),
        full[cache_key] == entry,
        forall|key: Seq<char>| #[trigger]
            full.contains_key(key) && key != cache_key ==> full[key] == shard[key],
    ensures
        ({
            let after = (ShardChangeModel::Store { cache_key, entry, quota }).applied(
                shard,
                now_ms,
            );
            &&& full.len() <= quota ==> after == full
            &&& full.len() > quota ==> after.len() == quota
            &&& forall|key: Seq<char>| #[trigger]
                after.contains_key(key) ==> full.contains_key(key) && after[key] == full[key]
            &&& forall|gone: Seq<char>, kept: Seq<char>|
                full.contains_key(gone) && !#[trigger] after.contains_key(gone)
                    && #[trigger] after.contains_key(kept) ==> (full[gone].expires_at_ms
                    < full[kept].expires_at_ms || (full[gone].expires_at_ms
                    == full[kept].expires_at_ms && text_before(gone, kept)))
        }),
{
    let live = live_entries(shard, now_ms);
    lemma_live_finite(shard, now_ms);
    let all = live.insert(cache_key, entry);
    assert forall|key: Seq<char>| all.dom().contains(key) == full.dom().contains(key) by {
        assert(full.contains_key(key) <==> (key == cache_key || (shard.contains_key(key)
            && now_ms < shard[key].expires_at_ms)));
    }
    assert(all =~= full);
    law_quota_keeps_the_latest(full, quota);
}

/// A change is made in the shard of its key, and may be tried three times.
pub proof fn law_updates_reach_the_shard(
    cache_key: Seq<char>,
    entry: CacheEntryModel,
    quota: nat,
    id: int,
)
    ensures
        store_update(cache_key, entry, quota) == (ShardUpdateModel {
            shared_key: "cextauthz.cache.shard."@ + decimal_text(shard_of(cache_key)),
            change: ShardChangeModel::Store { cache_key, entry, quota },
            attempts: 3,
        }),
        purge_key_update(cache_key) == (ShardUpdateModel {
            shared_key: "cextauthz.cache.shard."@ + decimal_text(shard_of(cache_key)),
            change: ShardChangeModel::Remove { cache_key },
            attempts: 3,
        }),
        purge_all_updates().len() == 16,
        0 <= id < 16 ==> purge_all_updates()[id] == (ShardUpdateModel {
            shared_key: "cextauthz.cache.shard."@ + decimal_text(id as nat),
            change: ShardChangeModel::Clear,
            attempts: 3,
        }),
{
}

/// A write that went through ends an update; one that did not leaves one attempt less.
pub proof fn law_attempts(update: ShardUpdateModel, written: bool)
    ensures
        written ==> update.after_write(written).attempts == 0,
        !written && update.attempts > 0 ==> update.after_write(written).attempts + 1
            == update.attempts,
        !written && update.attempts == 0 ==> update.after_write(written).attempts == 0,
        update.after_write(written).shared_key == update.shared_key,
        update.after_write(written).change == update.change,
{
}

} // verus!
