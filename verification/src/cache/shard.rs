//! Shards: which one a key belongs to, how many decisions it holds, and which ones leave it.
use crate::cache::entry::{CacheEntryModel, CacheShard};
use crate::text::numbers::{
    decimal_text, lemma_decimal_injective, number_spelled, push_decimal, read_number,
};
use crate::text::{
    has_prefix, lemma_text_antisymmetric, lemma_text_connected, lemma_text_transitive, text_before,
};
use crate::text_map::{is_ascending, lemma_map_of_keys, lemma_map_of_value};
use vstd::prelude::*;
use vstd::set_lib::lemma_subset_equality;
use vstd::string::*;

verus! {

/// The number of shards.
pub const NUM_SHARDS: usize = 16;

/// The shard that a key belongs to: the hash in it decides, and a key without one belongs to
/// the first shard.
pub open spec fn shard_of(key: Seq<char>) -> nat {
    if "cache:"@.is_prefix_of(key) {
        match number_spelled(key.skip("cache:"@.len() as int), 16, u64::MAX as nat) {
            Some(hash) => hash % NUM_SHARDS as nat,
            None => 0,
        }
    } else {
        0
    }
}

/// The shard that a key belongs to.
pub fn shard_id_from_key(key: &str) -> (id: usize)
    ensures
        id == shard_of(key@),
        id < NUM_SHARDS,
{
    proof {
        reveal_strlit("cache:");
    }
    if !has_prefix(key, "cache:") {
        return 0;
    }
    let end: usize = key.unicode_len();
    match read_number(key.substring_char(6, end), 16, u64::MAX) {
        Some(hash) => (hash % NUM_SHARDS as u64) as usize,
        None => 0,
    }
}

/// The name that a shard is stored under.
pub open spec fn shard_name(id: nat) -> Seq<char> {
    "cextauthz.cache.shard."@ + decimal_text(id)
}

/// Different shards are stored under different names.
pub proof fn law_shard_names_differ(id: nat, other: nat)
    ensures
        shard_name(id) == shard_name(other) ==> id == other,
{
    if shard_name(id) == shard_name(other) {
        let n = "cextauthz.cache.shard."@.len() as int;
        assert(shard_name(id).skip(n) =~= decimal_text(id));
        assert(shard_name(other).skip(n) =~= decimal_text(other));
        lemma_decimal_injective(id, other);
    }
}

/// The name that a shard is stored under.
pub fn shard_shared_key(shard_id: usize) -> (name: String)
    ensures
        name@ == shard_name(shard_id as nat),
{
    let mut name = "cextauthz.cache.shard.".to_owned();
    push_decimal(&mut name, shard_id as u64);
    name
}

/// The number of decisions that one shard may hold: its part of all, rounded up, and one at
/// least.
pub open spec fn quota_of(max_entries: nat) -> nat {
    let part = (max_entries + NUM_SHARDS - 1) / NUM_SHARDS as int;
    if part < 1 {
        1
    } else {
        part as nat
    }
}

/// The number of decisions that one shard may hold.
pub fn shard_quota(max_entries: usize) -> (quota: usize)
    ensures
        quota == quota_of(max_entries as nat),
{
    if max_entries == 0 {
        1
    } else {
        (max_entries - 1) / NUM_SHARDS + 1
    }
}

/// The decisions of a shard that have not expired.
pub open spec fn live_entries(shard: Map<Seq<char>, CacheEntryModel>, now_ms: u64) -> Map<
    Seq<char>,
    CacheEntryModel,
> {
    shard.restrict(Set::new(|key: Seq<char>| shard[key].expires_at_ms > now_ms))
}

/// Takes the decisions out that have expired.
pub fn evict_expired(shard: &mut CacheShard, now_ms: u64)
    ensures
        final(shard)@ == live_entries(old(shard)@, now_ms),
{
    let mut i: usize = 0;
    while i < shard.entries.len()
        invariant
            i <= shard.entries.pairs().len(),
            forall|k: int|
                0 <= k < i ==> (#[trigger] shard.entries.pairs()[k]).1.expires_at_ms > now_ms,
            live_entries(shard@, now_ms) == live_entries(old(shard)@, now_ms),
        ensures
            forall|k: int|
                0 <= k < shard.entries.pairs().len() ==> (
                #[trigger] shard.entries.pairs()[k]).1.expires_at_ms > now_ms,
            live_entries(shard@, now_ms) == live_entries(old(shard)@, now_ms),
        decreases shard.entries.pairs().len() - i,
    {
        if shard.entries.value_at(i).expires_at_ms > now_ms {
            i = i + 1;
        } else {
            let ghost before = shard@;
            shard.entries.remove_at(i);
            proof {
                assert(live_entries(shard@, now_ms) =~= live_entries(before, now_ms));
            }
        }
    }
    let count = shard.entries.len();
    proof {
        let pairs = shard.entries.pairs();
        assert forall|key: Seq<char>| shard@.contains_key(key) implies shard@[key].expires_at_ms
            > now_ms by {
            lemma_map_of_keys(pairs, key);
            let k = choose|k: int| 0 <= k < pairs.len() && #[trigger] pairs[k].0 == key;
            lemma_map_of_value(pairs, k);
        }
        assert(live_entries(shard@, now_ms) =~= shard@);
    }
}

/// The order in which decisions leave a shard that holds too many: by expiry, then by key.
pub open spec fn leaves_before(
    shard: Map<Seq<char>, CacheEntryModel>,
    key: Seq<char>,
    other: Seq<char>,
) -> bool {
    shard[key].expires_at_ms < shard[other].expires_at_ms || (shard[key].expires_at_ms
        == shard[other].expires_at_ms && text_before(key, other))
}

/// That `kept` is what is left of a shard under a quota: as much as the quota allows, and
/// whatever is gone leaves before whatever is kept.
pub open spec fn is_within_quota(
    shard: Map<Seq<char>, CacheEntryModel>,
    kept: Map<Seq<char>, CacheEntryModel>,
    quota: nat,
) -> bool {
    &&& kept.submap_of(shard)
    &&& kept.dom().finite()
    &&& kept.len() == (if shard.len() > quota {
        quota
    } else {
        shard.len()
    })
    &&& forall|gone: Seq<char>, key: Seq<char>|
        shard.contains_key(gone) && !#[trigger] kept.contains_key(gone)
            && #[trigger] kept.contains_key(key) ==> leaves_before(shard, gone, key)
}

/// What is left of a shard under a quota.
pub open spec fn within_quota(shard: Map<Seq<char>, CacheEntryModel>, quota: nat) -> Map<
    Seq<char>,
    CacheEntryModel,
> {
    choose|kept: Map<Seq<char>, CacheEntryModel>| is_within_quota(shard, kept, quota)
}

proof fn lemma_leaving_order(
    shard: Map<Seq<char>, CacheEntryModel>,
    a: Seq<char>,
    b: Seq<char>,
    c: Seq<char>,
)
    ensures
        !(leaves_before(shard, a, b) && leaves_before(shard, b, a)),
        a == b || leaves_before(shard, a, b) || leaves_before(shard, b, a),
        leaves_before(shard, a, b) && leaves_before(shard, b, c) ==> leaves_before(shard, a, c),
{
    lemma_text_antisymmetric(a, b);
    lemma_text_connected(a, b);
    if text_before(a, b) && text_before(b, c) {
        lemma_text_transitive(a, b, c);
    }
}

/// What is left of a shard under a quota is settled.
pub proof fn law_quota_settles(
    shard: Map<Seq<char>, CacheEntryModel>,
    kept: Map<Seq<char>, CacheEntryModel>,
    quota: nat,
)
    requires
        is_within_quota(shard, kept, quota),
    ensures
        kept == within_quota(shard, quota),
{
    let other = within_quota(shard, quota);
    assert(is_within_quota(shard, other, quota));
    if kept.dom() != other.dom() {
        if kept.dom().subset_of(other.dom()) {
            lemma_subset_equality(kept.dom(), other.dom());
        }
        if other.dom().subset_of(kept.dom()) {
            lemma_subset_equality(other.dom(), kept.dom());
        }
        let a = choose|a: Seq<char>| kept.contains_key(a) && !other.contains_key(a);
        let b = choose|b: Seq<char>| other.contains_key(b) && !kept.contains_key(b);
        assert(shard.contains_key(a));
        assert(shard.contains_key(b));
        assert(leaves_before(shard, a, b));
        assert(leaves_before(shard, b, a));
        lemma_leaving_order(shard, a, b, a);
    }
    assert forall|key: Seq<char>| kept.contains_key(key) implies kept[key] == other[key] by {
        assert(other.contains_key(key));
        assert(shard.contains_key(key));
    }
    assert(kept =~= other);
}

/// Of finitely many decisions, one leaves first.
proof fn lemma_first_exists(shard: Map<Seq<char>, CacheEntryModel>, keys: Set<Seq<char>>) -> (first:
    Seq<char>)
    requires
        keys.finite(),
        keys.len() > 0,
    ensures
        keys.contains(first),
        forall|key: Seq<char>|
            keys.contains(key) && key != first ==> #[trigger] leaves_before(shard, first, key),
    decreases keys.len(),
{
    let some = keys.choose();
    let rest = keys.remove(some);
    if rest.len() == 0 {
        assert forall|key: Seq<char>|
            keys.contains(key) && key != some implies #[trigger] leaves_before(
            shard,
            some,
            key,
        ) by {
            assert(rest.contains(key));
        }
        some
    } else {
        let other = lemma_first_exists(shard, rest);
        lemma_leaving_order(shard, some, other, some);
        let first = if leaves_before(shard, some, other) {
            some
        } else {
            other
        };
        assert forall|key: Seq<char>|
            keys.contains(key) && key != first implies #[trigger] leaves_before(
            shard,
            first,
            key,
        ) by {
            if key != some && key != other {
                assert(rest.contains(key));
                assert(leaves_before(shard, other, key));
                lemma_leaving_order(shard, some, other, key);
            }
        }
        first
    }
}

/// Every shard can be brought within a quota.
pub proof fn lemma_within_quota(shard: Map<Seq<char>, CacheEntryModel>, quota: nat)
    requires
        shard.dom().finite(),
    ensures
        is_within_quota(shard, within_quota(shard, quota), quota),
    decreases shard.len(),
{
    if shard.len() <= quota {
        assert(is_within_quota(shard, shard, quota));
    } else {
        let first = lemma_first_exists(shard, shard.dom());
        let rest = shard.remove(first);
        lemma_within_quota(rest, quota);
        let kept = within_quota(rest, quota);
        assert forall|key: Seq<char>| #[trigger]
            kept.dom().contains(key) implies shard.dom().contains(key) && kept[key]
            == shard[key] by {
            assert(rest.dom().contains(key));
        }
        assert forall|gone: Seq<char>, key: Seq<char>|
            shard.contains_key(gone) && !#[trigger] kept.contains_key(gone)
                && #[trigger] kept.contains_key(key) implies leaves_before(shard, gone, key) by {
            assert(rest.contains_key(key));
            if gone == first {
                assert(leaves_before(shard, first, key));
            } else {
                assert(rest.contains_key(gone));
                assert(leaves_before(rest, gone, key));
            }
        }
        assert(is_within_quota(shard, kept, quota));
    }
}

/// The shards together hold what they may hold in all, and less than one decision more each.
pub proof fn law_quotas_cover(max_entries: nat)
    ensures
        NUM_SHARDS * quota_of(max_entries) >= max_entries,
        max_entries > 0 ==> NUM_SHARDS * quota_of(max_entries) < max_entries + NUM_SHARDS,
{
}

/// The position of the decision that leaves first.
fn first_to_leave(shard: &CacheShard) -> (first: usize)
    requires
        shard.entries.pairs().len() > 0,
    ensures
        first < shard.entries.pairs().len(),
        forall|key: Seq<char>|
            shard@.contains_key(key) && key != shard.entries.pairs()[first as int].0
                ==> #[trigger] leaves_before(
                shard@,
                shard.entries.pairs()[first as int].0,
                key,
            ),
{
    let count = shard.entries.len();
    let ghost pairs = shard.entries.pairs();
    let mut first: usize = 0;
    let mut i: usize = 1;
    while i < count
        invariant
            first < i <= count,
            count == pairs.len(),
            pairs == shard.entries.pairs(),
            is_ascending(pairs),
            forall|k: int|
                0 <= k < i && k != first ==> leaves_before(
                    shard@,
                    pairs[first as int].0,
                    (#[trigger] pairs[k]).0,
                ),
        decreases count - i,
    {
        let ghost before = first;
        proof {
            lemma_map_of_value(pairs, first as int);
            lemma_map_of_value(pairs, i as int);
            assert(text_before(pairs[first as int].0, pairs[i as int].0));
        }
        if shard.entries.value_at(i).expires_at_ms < shard.entries.value_at(first).expires_at_ms {
            first = i;
            proof {
                assert forall|k: int| 0 <= k < i + 1 && k != i implies leaves_before(
                    shard@,
                    pairs[i as int].0,
                    (#[trigger] pairs[k]).0,
                ) by {
                    lemma_leaving_order(
                        shard@,
                        pairs[i as int].0,
                        pairs[before as int].0,
                        pairs[k].0,
                    );
                }
            }
        }
        i = i + 1;
    }
    proof {
        assert forall|key: Seq<char>|
            shard@.contains_key(key) && key != pairs[first as int].0 implies
            #[trigger] leaves_before(shard@, pairs[first as int].0, key) by {
            lemma_map_of_keys(pairs, key);
            let k = choose|k: int| 0 <= k < pairs.len() && #[trigger] pairs[k].0 == key;
        }
    }
    first
}

/// Takes decisions out of a shard until no more are left than the quota allows; the one that
/// expires first goes first, and of several the one with the first key.
pub fn enforce_quota(shard: &mut CacheShard, quota: usize)
    ensures
        is_within_quota(old(shard)@, final(shard)@, quota as nat),
        final(shard)@ == within_quota(old(shard)@, quota as nat),
{
    let ghost all = shard@;
    let total = shard.entries.len();
    let ghost target: nat = if all.len() > quota {
        quota as nat
    } else {
        all.len()
    };
    while shard.entries.len() > quota
        invariant
            all == old(shard)@,
            all.dom().finite(),
            target == (if all.len() > quota {
                quota as nat
            } else {
                all.len()
            }),
            shard@.submap_of(all),
            shard@.dom().finite(),
            shard@.len() == shard.entries.pairs().len(),
            target <= shard@.len() <= all.len(),
            shard@.len() > quota || shard@.len() == target,
            forall|gone: Seq<char>, key: Seq<char>|
                all.contains_key(gone) && !#[trigger] shard@.contains_key(gone)
                    && #[trigger] shard@.contains_key(key) ==> leaves_before(all, gone, key),
        decreases shard.entries.pairs().len(),
    {
        let first = first_to_leave(shard);
        let ghost before = shard@;
        let ghost key = shard.entries.pairs()[first as int].0;
        proof {
            lemma_map_of_value(shard.entries.pairs(), first as int);
        }
        shard.entries.remove_at(first);
        let rest = shard.entries.len();
        proof {
            assert forall|gone: Seq<char>, other: Seq<char>|
                all.contains_key(gone) && !#[trigger] shard@.contains_key(gone)
                    && #[trigger] shard@.contains_key(other) implies leaves_before(
                all,
                gone,
                other,
            ) by {
                assert(before.contains_key(other) && before.contains_key(key));
                assert(all.contains_key(other) && all.contains_key(key));
                if gone == key {
                    assert(leaves_before(before, key, other));
                } else {
                    assert(!before.contains_key(gone));
                }
            }
        }
    }
    proof {
        law_quota_settles(all, shard@, quota as nat);
    }
}

} // verus!
