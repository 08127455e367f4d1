//! What each kind of event does to the resident copies, block by block, as it
//! can be read off the event's own fields.

use vstd::prelude::*;
use crate::indexer::age_key::AgeKey;
use crate::indexer::age_model::{
    after_event, counts_by_worker, event_lifetimes, held_by, key_of, lifetimes, resident_ages,
    resident_hashes,
};
use crate::indexer::age_stats::{lemma_percentiles_split_the_ages, spec_age_stats};
use crate::indexer::clock::spec_time_since;
use crate::indexer::listing::lemma_to_seq;
use crate::protocols::{
    ExternalSequenceBlockHash, KvCacheEventData, KvCacheRemoveData, KvCacheStoreData, ResetScope,
    ResidencyDomain, ResidencyError, ResidencyOwner, RouterEvent, WorkerWithDpRank,
};

verus! {

/// The key of a copy is its owner and its block.
pub proof fn lemma_key_of(owner: ResidencyOwner, block_hash: ExternalSequenceBlockHash)
    ensures
        key_of(owner, block_hash) == (AgeKey { owner, block_hash }),
{
}

/// After a store, every block of the event is resident with its owner,
/// whatever the blocks are stored behind and wherever they start, and so is
/// everything that was resident before. Nothing else is, and nothing that was
/// resident changes its time.
pub proof fn lemma_stored_blocks_are_resident(
    resident: Map<AgeKey, u128>,
    event: RouterEvent,
    store: KvCacheStoreData,
    owner: ResidencyOwner,
    scope: Result<Option<ResetScope>, ResidencyError>,
    times: Seq<u128>,
)
    requires
        event.event.data == KvCacheEventData::Stored(store),
    ensures
        ({
            let after = after_event(resident, event, Ok(owner), scope, times);
            &&& forall|i: int|
                0 <= i < store.blocks@.len() ==> after.contains_key(
                    AgeKey { owner, block_hash: (#[trigger] store.blocks@[i]).block_hash },
                )
            &&& forall|key: AgeKey| #[trigger]
                resident.contains_key(key) ==> after.contains_key(key) && after[key]
                    == resident[key]
            &&& forall|key: AgeKey| #[trigger]
                after.contains_key(key) && !resident.contains_key(key) ==> key.owner == owner
                    && exists|i: int|
                    0 <= i < store.blocks@.len() && (#[trigger] store.blocks@[i]).block_hash
                        == key.block_hash
        }),
{
    let after = after_event(resident, event, Ok(owner), scope, times);
    let hashes = event.event.data.hashes();
    assert forall|i: int| 0 <= i < store.blocks@.len() implies after.contains_key(
        AgeKey { owner, block_hash: (#[trigger] store.blocks@[i]).block_hash },
    ) by {
        assert(hashes[i] == store.blocks@[i].block_hash);
    }
    assert forall|key: AgeKey| #[trigger]
        after.contains_key(key) && !resident.contains_key(key) implies key.owner == owner && exists|
        i: int,
    |
        0 <= i < store.blocks@.len() && (#[trigger] store.blocks@[i]).block_hash
            == key.block_hash by {
        let i = hashes.index_of(key.block_hash);
        assert(hashes[i] == store.blocks@[i].block_hash);
    }
}

/// A copy that a store makes resident gets the reading of the first place at
/// which the event has its block.
pub proof fn lemma_new_copy_is_timed_at_its_first_place(
    resident: Map<AgeKey, u128>,
    event: RouterEvent,
    store: KvCacheStoreData,
    owner: ResidencyOwner,
    scope: Result<Option<ResetScope>, ResidencyError>,
    times: Seq<u128>,
    i: int,
)
    requires
        event.event.data == KvCacheEventData::Stored(store),
        0 <= i < store.blocks@.len(),
        forall|j: int|
            0 <= j < i ==> (#[trigger] store.blocks@[j]).block_hash
                != store.blocks@[i].block_hash,
        !resident.contains_key(AgeKey { owner, block_hash: store.blocks@[i].block_hash }),
    ensures
        after_event(resident, event, Ok(owner), scope, times)[AgeKey {
            owner,
            block_hash: store.blocks@[i].block_hash,
        }] == times[i],
{
    let hashes = event.event.data.hashes();
    let hash = store.blocks@[i].block_hash;
    assert(hashes[i] == hash);
    hashes.index_of_first_ensures(hash);
    let first = hashes.index_of_first(hash)->0;
    assert(hashes[first] == store.blocks@[first].block_hash);
}

/// After a removal, no block of the event is resident with its owner. All
/// else that was resident still is, with the time it had, and nothing more.
pub proof fn lemma_removed_blocks_are_gone(
    resident: Map<AgeKey, u128>,
    event: RouterEvent,
    remove: KvCacheRemoveData,
    owner: ResidencyOwner,
    scope: Result<Option<ResetScope>, ResidencyError>,
    times: Seq<u128>,
)
    requires
        event.event.data == KvCacheEventData::Removed(remove),
    ensures
        ({
            let after = after_event(resident, event, Ok(owner), scope, times);
            &&& forall|i: int|
                0 <= i < remove.block_hashes@.len() ==> !after.contains_key(
                    AgeKey { owner, block_hash: #[trigger] remove.block_hashes@[i] },
                )
            &&& forall|key: AgeKey| #[trigger]
                after.contains_key(key) ==> resident.contains_key(key) && after[key]
                    == resident[key]
            &&& forall|key: AgeKey| #[trigger]
                resident.contains_key(key) && !after.contains_key(key) ==> key.owner == owner
                    && exists|i: int|
                    0 <= i < remove.block_hashes@.len() && #[trigger] remove.block_hashes@[i]
                        == key.block_hash
        }),
{
}

/// A reading more than there are blocks makes no difference to the lifetimes.
proof fn lemma_lifetimes_end_with_the_blocks(
    resident: Map<AgeKey, u128>,
    owner: ResidencyOwner,
    hashes: Seq<ExternalSequenceBlockHash>,
    times: Seq<u128>,
    time: u128,
)
    requires
        hashes.len() <= times.len(),
    ensures
        lifetimes(resident, owner, hashes, times.push(time)) == lifetimes(
            resident,
            owner,
            hashes,
            times,
        ),
    decreases hashes.len(),
{
    if hashes.len() > 0 {
        lemma_lifetimes_end_with_the_blocks(resident, owner, hashes.drop_last(), times, time);
    }
}

/// A removal of no blocks records nothing. One block more in a removal records
/// one lifetime more, after the others, where the block is resident with the
/// owner and the removal does not have it already, and else records nothing
/// more. The lifetime is the time from when the copy was stored to the reading
/// of the block, and zero where that reading is the earlier.
pub proof fn lemma_one_more_removal_records_its_lifetime(
    resident: Map<AgeKey, u128>,
    shorter: RouterEvent,
    longer: RouterEvent,
    few: KvCacheRemoveData,
    more: KvCacheRemoveData,
    owner: ResidencyOwner,
    times: Seq<u128>,
    block_hash: ExternalSequenceBlockHash,
    time: u128,
)
    requires
        shorter.event.data == KvCacheEventData::Removed(few),
        longer.event.data == KvCacheEventData::Removed(more),
        more.block_hashes@ == few.block_hashes@.push(block_hash),
        times.len() == few.block_hashes@.len(),
    ensures
        ({
            let before = event_lifetimes(resident, shorter, Ok(owner), times);
            let after = event_lifetimes(resident, longer, Ok(owner), times.push(time));
            let key = AgeKey { owner, block_hash };
            &&& few.block_hashes@.len() == 0 ==> before.len() == 0
            &&& if resident.contains_key(key) && !few.block_hashes@.contains(block_hash) {
                &&& after.len() == before.len() + 1
                &&& after.drop_last() == before
                &&& resident[key] <= time ==> resident[key] + after.last() == time
                &&& time < resident[key] ==> after.last() == 0
            } else {
                after == before
            }
        }),
{
    assert(more.block_hashes@.drop_last() == few.block_hashes@);
    lemma_lifetimes_end_with_the_blocks(resident, owner, few.block_hashes@, times, time);
    let before = event_lifetimes(resident, shorter, Ok(owner), times);
    let after = event_lifetimes(resident, longer, Ok(owner), times.push(time));
    if resident.contains_key(AgeKey { owner, block_hash }) && !few.block_hashes@.contains(
        block_hash,
    ) {
        assert(after.drop_last() == before);
    }
}

/// Only removals record lifetimes, and only where they speak for an owner.
pub proof fn lemma_only_removals_record_lifetimes(
    resident: Map<AgeKey, u128>,
    event: RouterEvent,
    owner: Result<ResidencyOwner, ResidencyError>,
    times: Seq<u128>,
)
    requires
        !(event.event.data is Removed) || owner is Err,
    ensures
        event_lifetimes(resident, event, owner, times).len() == 0,
{
}

/// After a clear event that reaches the worker domain, the rank that reports
/// it holds nothing, whichever worker and rank that is. After one that reaches
/// the cache-owner domain, its state source holds nothing. All else that was
/// resident still is, with the time it had, and nothing more.
pub proof fn lemma_clear_leaves_nothing_of_its_owners(
    resident: Map<AgeKey, u128>,
    event: RouterEvent,
    owner: Result<ResidencyOwner, ResidencyError>,
    scope: ResetScope,
    times: Seq<u128>,
    key: AgeKey,
)
    requires
        event.event.data is Cleared,
    ensures
        ({
            let after = after_event(resident, event, owner, Ok(Some(scope)), times);
            let reaches_worker = scope == ResetScope::All || scope == ResetScope::Domain(
                ResidencyDomain::Worker,
            );
            let reaches_cache_owner = scope == ResetScope::All || scope == ResetScope::Domain(
                ResidencyDomain::CacheOwner,
            );
            let of_worker = key.owner == ResidencyOwner::Worker(
                WorkerWithDpRank { worker_id: event.worker_id, dp_rank: event.event.dp_rank },
            );
            let of_source = event.state_source is Some && key.owner == ResidencyOwner::CacheOwner(
                event.state_source->0,
            );
            &&& reaches_worker && of_worker ==> !after.contains_key(key)
            &&& reaches_cache_owner && of_source ==> !after.contains_key(key)
            &&& resident.contains_key(key) && !(reaches_worker && of_worker) && !(
            reaches_cache_owner && of_source) ==> after.contains_key(key)
            &&& after.contains_key(key) ==> resident.contains_key(key) && after[key]
                == resident[key]
        }),
{
}

/// The count of a worker rank is how many copies it owns, and ranks that own
/// none have no count.
pub proof fn lemma_counts_are_of_owned_copies(
    resident: Map<AgeKey, u128>,
    worker: WorkerWithDpRank,
)
    ensures
        counts_by_worker(resident).contains_key(worker) <==> exists|key: AgeKey| #[trigger]
            resident.contains_key(key) && key.owner == ResidencyOwner::Worker(worker),
        counts_by_worker(resident).contains_key(worker) ==> counts_by_worker(resident)[worker]
            == resident.dom().filter(
            |key: AgeKey| key.owner == ResidencyOwner::Worker(worker),
        ).len(),
{
    let held = held_by(resident, worker);
    if counts_by_worker(resident).contains_key(worker) {
        assert(held.contains(held.choose()));
        assert(resident.contains_key(held.choose()));
    }
    if exists|key: AgeKey| #[trigger]
        resident.contains_key(key) && key.owner == ResidencyOwner::Worker(worker) {
        let key = choose|key: AgeKey| #[trigger]
            resident.contains_key(key) && key.owner == ResidencyOwner::Worker(worker);
        assert(held.contains(key));
    }
}

/// A copy more is one more in the count of the worker rank that owns it and
/// changes no other count.
pub proof fn lemma_copy_adds_one_to_its_worker(
    resident: Map<AgeKey, u128>,
    key: AgeKey,
    time: u128,
    worker: WorkerWithDpRank,
)
    requires
        resident.dom().finite(),
        !resident.contains_key(key),
    ensures
        ({
            let before = counts_by_worker(resident);
            let after = counts_by_worker(resident.insert(key, time));
            if key.owner == ResidencyOwner::Worker(worker) {
                after.contains_key(worker) && after[worker] == 1 + (if before.contains_key(
                    worker,
                ) {
                    before[worker]
                } else {
                    0
                })
            } else {
                &&& after.contains_key(worker) <==> before.contains_key(worker)
                &&& after.contains_key(worker) ==> after[worker] == before[worker]
            }
        }),
{
    crate::indexer::listing::lemma_counts_step(resident, key, time);
}

/// The resident blocks are those of the resident copies. A copy more adds its
/// block and no other.
pub proof fn lemma_resident_blocks_are_those_of_copies(
    resident: Map<AgeKey, u128>,
    key: AgeKey,
    time: u128,
    hash: u64,
)
    ensures
        resident_hashes(Map::empty()).is_empty(),
        resident.contains_key(key) ==> resident_hashes(resident).contains(key.block_hash.0),
        !resident.contains_key(key) ==> (resident_hashes(resident.insert(key, time)).contains(hash)
            <==> hash == key.block_hash.0 || resident_hashes(resident).contains(hash)),
{
    let none = Map::<AgeKey, u128>::empty();
    assert(resident_hashes(none) =~= Set::empty());
    if !resident.contains_key(key) {
        crate::indexer::listing::lemma_hashes_step(resident, key, time);
    }
}

/// Counting values over a walk is counting the elements that have them.
proof fn lemma_count_over_walk(
    keys: Seq<AgeKey>,
    f: spec_fn(AgeKey) -> u128,
    p: spec_fn(u128) -> bool,
)
    requires
        keys.no_duplicates(),
    ensures
        keys.to_set().filter(|key: AgeKey| p(f(key))).finite(),
        keys.map_values(f).filter(p).len() == keys.to_set().filter(|key: AgeKey| p(f(key))).len(),
    decreases keys.len(),
{
    reveal(Seq::filter);
    let q = |key: AgeKey| p(f(key));
    let counted = keys.to_set().filter(q);
    if keys.len() == 0 {
        assert(counted =~= Set::empty());
    } else {
        let shorter = keys.drop_last();
        let fewer = shorter.to_set().filter(q);
        lemma_count_over_walk(shorter, f, p);
        assert(keys.map_values(f).drop_last() =~= shorter.map_values(f));
        assert forall|key: AgeKey| keys.contains(key) <==> #[trigger] shorter.contains(key) || key
            == keys.last() by {
            if shorter.contains(key) {
                let i = shorter.index_of(key);
                assert(keys[i] == key);
            }
            assert(keys[keys.len() - 1] == keys.last());
            if keys.contains(key) && key != keys.last() {
                let i = keys.index_of(key);
                assert(shorter[i] == key);
            }
        }
        assert(!shorter.contains(keys.last()));
        if q(keys.last()) {
            assert(counted =~= fewer.insert(keys.last()));
        } else {
            assert(counted =~= fewer);
        }
    }
}

/// As many copies as ages lie on each side of a bound.
proof fn lemma_copies_by_age(resident: Map<AgeKey, u128>, now: u128, bound: u128)
    requires
        resident.dom().finite(),
    ensures
        ({
            let ages = resident_ages(resident, now);
            let age = |key: AgeKey|
                if resident[key] <= now {
                    now - resident[key]
                } else {
                    0
                };
            &&& ages.filter(|a: u128| a <= bound).len() == resident.dom().filter(
                |key: AgeKey| age(key) <= bound,
            ).len()
            &&& ages.filter(|a: u128| a >= bound).len() == resident.dom().filter(
                |key: AgeKey| age(key) >= bound,
            ).len()
        }),
{
    let keys = resident.dom().to_seq();
    let f = |key: AgeKey| spec_time_since(now, resident[key]);
    let age = |key: AgeKey|
        if resident[key] <= now {
            now - resident[key]
        } else {
            0
        };
    let low = |a: u128| a <= bound;
    let high = |a: u128| a >= bound;
    lemma_to_seq(resident.dom());
    lemma_count_over_walk(keys, f, low);
    lemma_count_over_walk(keys, f, high);
    assert(resident.dom().filter(|key: AgeKey| low(f(key))) =~= resident.dom().filter(
        |key: AgeKey| age(key) <= bound,
    ));
    assert(resident.dom().filter(|key: AgeKey| high(f(key))) =~= resident.dom().filter(
        |key: AgeKey| age(key) >= bound,
    ));
}

/// The percentiles divide the resident copies by age. Of `n` copies, more than
/// `n * 50 / 100` are no older than the median and at least the rest are no
/// younger, and in the same way with 99 for the 99th percentile. The age of a
/// copy is the time from its own time to `now`, and zero where that is the
/// earlier.
pub proof fn lemma_percentiles_split_the_copies(resident: Map<AgeKey, u128>, now: u128)
    requires
        resident.dom().finite(),
        resident.len() > 0,
    ensures
        spec_age_stats(resident_ages(resident, now)) matches Some(stats) && {
            let n = resident.len();
            let age = |key: AgeKey|
                if resident[key] <= now {
                    now - resident[key]
                } else {
                    0
                };
            &&& resident.dom().filter(|key: AgeKey| age(key) <= stats.p50).len() > n * 50 / 100
            &&& resident.dom().filter(|key: AgeKey| age(key) >= stats.p50).len() >= n - n * 50
                / 100
            &&& resident.dom().filter(|key: AgeKey| age(key) <= stats.p99).len() > n * 99 / 100
            &&& resident.dom().filter(|key: AgeKey| age(key) >= stats.p99).len() >= n - n * 99
                / 100
            &&& resident.dom().filter(|key: AgeKey| age(key) >= stats.min).len() == n
            &&& resident.dom().filter(|key: AgeKey| age(key) <= stats.max).len() == n
            &&& resident.dom().filter(|key: AgeKey| age(key) <= stats.min).len() > 0
            &&& resident.dom().filter(|key: AgeKey| age(key) >= stats.max).len() > 0
        },
{
    let ages = resident_ages(resident, now);
    lemma_to_seq(resident.dom());
    assert(ages.len() == resident.len());
    lemma_percentiles_split_the_ages(ages);
    let stats = spec_age_stats(ages)->0;
    lemma_copies_by_age(resident, now, stats.min);
    lemma_copies_by_age(resident, now, stats.p50);
    lemma_copies_by_age(resident, now, stats.p99);
    lemma_copies_by_age(resident, now, stats.max);
}

} // verus!
