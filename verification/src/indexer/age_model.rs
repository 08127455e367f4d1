//! What a stream of events makes of the set of resident blocks.
//!
//! The set is modelled as a map from resident copies to the time each was
//! first observed as stored. An event that names blocks is applied at one
//! clock reading for each of them.

use vstd::prelude::*;
use crate::indexer::age_key::AgeKey;
use crate::indexer::clock::spec_time_since;
use crate::protocols::{
    ExternalSequenceBlockHash, KvCacheEventData, ResetScope, ResidencyDomain, ResidencyError,
    ResidencyOwner, RouterEvent, WorkerWithDpRank,
};

verus! {

/// The key of a block held by an owner.
pub open spec fn key_of(owner: ResidencyOwner, block_hash: ExternalSequenceBlockHash) -> AgeKey {
    AgeKey { owner, block_hash }
}

/// Whether `key` is a copy held by `owner` of one of the blocks `hashes`.
pub open spec fn is_named(
    owner: ResidencyOwner,
    hashes: Seq<ExternalSequenceBlockHash>,
    key: AgeKey,
) -> bool {
    key.owner == owner && hashes.contains(key.block_hash)
}

/// What storing blocks leaves resident. A copy that was resident keeps its
/// time. A new copy gets the reading of the first mention of its block.
pub open spec fn after_store(
    resident: Map<AgeKey, u128>,
    owner: ResidencyOwner,
    hashes: Seq<ExternalSequenceBlockHash>,
    times: Seq<u128>,
) -> Map<AgeKey, u128> {
    Map::new(
        |key: AgeKey| resident.contains_key(key) || is_named(owner, hashes, key),
        |key: AgeKey|
            if resident.contains_key(key) {
                resident[key]
            } else {
                times[hashes.index_of_first(key.block_hash)->0]
            },
    )
}

/// What removing blocks leaves resident.
pub open spec fn after_remove(
    resident: Map<AgeKey, u128>,
    owner: ResidencyOwner,
    hashes: Seq<ExternalSequenceBlockHash>,
) -> Map<AgeKey, u128> {
    Map::new(
        |key: AgeKey| resident.contains_key(key) && !is_named(owner, hashes, key),
        |key: AgeKey| resident[key],
    )
}

/// The lifetimes that removing blocks brings to an end, in the order of the
/// event: one for each resident block, at its first mention.
pub open spec fn lifetimes(
    resident: Map<AgeKey, u128>,
    owner: ResidencyOwner,
    hashes: Seq<ExternalSequenceBlockHash>,
    times: Seq<u128>,
) -> Seq<u128>
    decreases hashes.len(),
{
    if hashes.len() == 0 {
        Seq::empty()
    } else {
        let earlier = lifetimes(resident, owner, hashes.drop_last(), times);
        let key = key_of(owner, hashes.last());
        if resident.contains_key(key) && !hashes.drop_last().contains(hashes.last()) {
            earlier.push(spec_time_since(times[hashes.len() - 1], resident[key]))
        } else {
            earlier
        }
    }
}

/// What purging owners leaves resident.
pub open spec fn after_clear(resident: Map<AgeKey, u128>, owners: Set<ResidencyOwner>) -> Map<
    AgeKey,
    u128,
> {
    Map::new(
        |key: AgeKey| resident.contains_key(key) && !owners.contains(key.owner),
        |key: AgeKey| resident[key],
    )
}

/// The owners a clear event purges: the reporting worker rank, the state
/// source, or both.
pub open spec fn cleared_owners(event: RouterEvent, scope: ResetScope) -> Set<ResidencyOwner> {
    let worker = set![ResidencyOwner::Worker(event.spec_reporting_worker())];
    let cache_owner = match event.state_source {
        Some(id) => set![ResidencyOwner::CacheOwner(id)],
        None => Set::empty(),
    };
    match scope {
        ResetScope::All => worker.union(cache_owner),
        ResetScope::Domain(ResidencyDomain::Worker) => worker,
        ResetScope::Domain(ResidencyDomain::CacheOwner) => cache_owner,
    }
}

/// What an event leaves resident, given the owner and the reset scope it
/// resolves to. An event that resolves to neither changes nothing.
pub open spec fn after_event(
    resident: Map<AgeKey, u128>,
    event: RouterEvent,
    owner: Result<ResidencyOwner, ResidencyError>,
    scope: Result<Option<ResetScope>, ResidencyError>,
    times: Seq<u128>,
) -> Map<AgeKey, u128> {
    let hashes = event.event.data.hashes();
    match event.event.data {
        KvCacheEventData::Stored(_) => match owner {
            Ok(owner) => after_store(resident, owner, hashes, times),
            Err(_) => resident,
        },
        KvCacheEventData::Removed(_) => match owner {
            Ok(owner) => after_remove(resident, owner, hashes),
            Err(_) => resident,
        },
        KvCacheEventData::Cleared => match scope {
            Ok(Some(scope)) => after_clear(resident, cleared_owners(event, scope)),
            _ => resident,
        },
    }
}

/// The lifetimes an event brings to an end and that are recorded: those of
/// the blocks a remove event takes out. A clear event records none.
pub open spec fn event_lifetimes(
    resident: Map<AgeKey, u128>,
    event: RouterEvent,
    owner: Result<ResidencyOwner, ResidencyError>,
    times: Seq<u128>,
) -> Seq<u128> {
    match event.event.data {
        KvCacheEventData::Removed(_) => match owner {
            Ok(owner) => lifetimes(resident, owner, event.event.data.hashes(), times),
            Err(_) => Seq::empty(),
        },
        _ => Seq::empty(),
    }
}

/// The ages of the resident copies at `now`, in some order.
pub open spec fn resident_ages(resident: Map<AgeKey, u128>, now: u128) -> Seq<u128> {
    resident.dom().to_seq().map_values(|key: AgeKey| spec_time_since(now, resident[key]))
}

/// The copies a worker rank holds.
pub open spec fn held_by(resident: Map<AgeKey, u128>, worker: WorkerWithDpRank) -> Set<AgeKey> {
    resident.dom().filter(|key: AgeKey| key.owner == ResidencyOwner::Worker(worker))
}

/// How many copies each worker rank holds, for those that hold any. Copies of
/// cache owners count for no worker.
pub open spec fn counts_by_worker(resident: Map<AgeKey, u128>) -> Map<WorkerWithDpRank, nat> {
    Map::new(
        |worker: WorkerWithDpRank| !held_by(resident, worker).is_empty(),
        |worker: WorkerWithDpRank| held_by(resident, worker).len(),
    )
}

/// The blocks of which there is a resident copy, whoever holds it.
pub open spec fn resident_hashes(resident: Map<AgeKey, u128>) -> Set<u64> {
    Set::new(|hash: u64| exists|key: AgeKey| #[trigger]
        resident.contains_key(key) && key.block_hash.0 == hash)
}

/// Storing one block more: the step from a prefix of an event to the next.
pub(crate) proof fn lemma_after_store_step(
    resident: Map<AgeKey, u128>,
    owner: ResidencyOwner,
    hashes: Seq<ExternalSequenceBlockHash>,
    times: Seq<u128>,
    n: int,
)
    requires
        0 <= n < hashes.len(),
    ensures
        ({
            let before = after_store(resident, owner, hashes.take(n), times);
            let key = key_of(owner, hashes[n]);
            after_store(resident, owner, hashes.take(n + 1), times) == if before.contains_key(key) {
                before
            } else {
                before.insert(key, times[n])
            }
        }),
{
    let shorter = hashes.take(n);
    let longer = hashes.take(n + 1);
    let before = after_store(resident, owner, shorter, times);
    let after = after_store(resident, owner, longer, times);
    let key = key_of(owner, hashes[n]);
    assert(longer == shorter.push(hashes[n]));
    assert forall|k: AgeKey| is_named(owner, longer, k) <==> is_named(owner, shorter, k) || k
        == key by {
        if shorter.contains(k.block_hash) {
            let i = shorter.index_of(k.block_hash);
            assert(longer[i] == k.block_hash);
        }
        assert(longer[n] == hashes[n]);
        if longer.contains(k.block_hash) && k.block_hash != hashes[n] {
            let i = longer.index_of(k.block_hash);
            assert(shorter[i] == k.block_hash);
        }
    }
    assert forall|k: AgeKey| after.contains_key(k) && !resident.contains_key(k) implies (
    longer.index_of_first(k.block_hash)->0) == (if is_named(owner, shorter, k) {
        shorter.index_of_first(k.block_hash)->0
    } else {
        n
    }) by {
        longer.index_of_first_ensures(k.block_hash);
        shorter.index_of_first_ensures(k.block_hash);
        let i = longer.index_of_first(k.block_hash)->0;
        if is_named(owner, shorter, k) {
            let j = shorter.index_of_first(k.block_hash)->0;
            assert(longer[j] == shorter[j]);
            assert(i <= j);
            assert(shorter[i] == longer[i]);
        } else {
            if i < n {
                assert(shorter[i] == longer[i]);
            }
        }
    }
    if before.contains_key(key) {
        assert(after =~= before);
    } else {
        assert(after =~= before.insert(key, times[n]));
    }
}

/// Removing one block more: the step from a prefix of an event to the next.
pub(crate) proof fn lemma_after_remove_step(
    resident: Map<AgeKey, u128>,
    owner: ResidencyOwner,
    hashes: Seq<ExternalSequenceBlockHash>,
    times: Seq<u128>,
    n: int,
)
    requires
        0 <= n < hashes.len(),
    ensures
        ({
            let before = after_remove(resident, owner, hashes.take(n));
            let key = key_of(owner, hashes[n]);
            let ended = lifetimes(resident, owner, hashes.take(n), times);
            &&& after_remove(resident, owner, hashes.take(n + 1)) == before.remove(key)
            &&& lifetimes(resident, owner, hashes.take(n + 1), times) == if before.contains_key(
                key,
            ) {
                ended.push(spec_time_since(times[n], before[key]))
            } else {
                ended
            }
        }),
{
    let shorter = hashes.take(n);
    let longer = hashes.take(n + 1);
    let key = key_of(owner, hashes[n]);
    assert(longer == shorter.push(hashes[n]));
    assert(longer.drop_last() == shorter);
    assert(longer.last() == hashes[n]);
    assert forall|k: AgeKey| is_named(owner, longer, k) <==> is_named(owner, shorter, k) || k
        == key by {
        if shorter.contains(k.block_hash) {
            let i = shorter.index_of(k.block_hash);
            assert(longer[i] == k.block_hash);
        }
        assert(longer[n] == hashes[n]);
        if longer.contains(k.block_hash) && k.block_hash != hashes[n] {
            let i = longer.index_of(k.block_hash);
            assert(shorter[i] == k.block_hash);
        }
    }
    assert(after_remove(resident, owner, longer) =~= after_remove(resident, owner, shorter).remove(
        key,
    ));
}

} // verus!
