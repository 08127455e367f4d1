//! What holds of resident blocks over any stream of events.

use vstd::prelude::*;
use crate::indexer::age_key::AgeKey;
use crate::indexer::age_model::{
    after_clear, after_event, after_remove, after_store, cleared_owners, counts_by_worker,
    event_lifetimes, held_by, is_named, key_of, lifetimes, resident_ages, resident_hashes,
};
use crate::indexer::age_stats::{lemma_stats_are_ordered, spec_age_stats};
use crate::indexer::clock::spec_time_since;
use crate::indexer::listing::lemma_to_seq;
use crate::protocols::{
    ExternalSequenceBlockHash, KvCacheEvent, KvCacheEventData, ResetScope, ResidencyDomain,
    ResidencyError, ResidencyOwner, RouterEvent, WorkerWithDpRank,
};

verus! {

/// Storing a block that is resident keeps the time it was first stored at, and
/// storing the same blocks again changes nothing, whenever it happens.
pub proof fn lemma_repeated_store_keeps_times(
    resident: Map<AgeKey, u128>,
    owner: ResidencyOwner,
    hashes: Seq<ExternalSequenceBlockHash>,
    times: Seq<u128>,
    later: Seq<u128>,
)
    ensures
        forall|key: AgeKey| #[trigger]
            resident.contains_key(key) ==> after_store(
                resident,
                owner,
                hashes,
                times,
            ).contains_key(key) && after_store(resident, owner, hashes, times)[key]
                == resident[key],
        after_store(after_store(resident, owner, hashes, times), owner, hashes, later)
            == after_store(resident, owner, hashes, times),
{
    let once = after_store(resident, owner, hashes, times);
    assert(after_store(once, owner, hashes, later) =~= once);
}

/// Removing a block ends its residency, and records one lifetime for each
/// resident copy that leaves, however often the event names it.
pub proof fn lemma_one_lifetime_per_copy(
    resident: Map<AgeKey, u128>,
    owner: ResidencyOwner,
    hashes: Seq<ExternalSequenceBlockHash>,
    times: Seq<u128>,
)
    ensures
        resident.dom().filter(|key: AgeKey| is_named(owner, hashes, key)).finite(),
        lifetimes(resident, owner, hashes, times).len() == resident.dom().filter(
            |key: AgeKey| is_named(owner, hashes, key),
        ).len(),
    decreases hashes.len(),
{
    let leaving = resident.dom().filter(|key: AgeKey| is_named(owner, hashes, key));
    if hashes.len() == 0 {
        assert(leaving =~= Set::<AgeKey>::empty());
    } else {
        let shorter = hashes.drop_last();
        let before = resident.dom().filter(|key: AgeKey| is_named(owner, shorter, key));
        let key = key_of(owner, hashes.last());
        lemma_one_lifetime_per_copy(resident, owner, shorter, times);
        assert forall|hash: ExternalSequenceBlockHash| #[trigger]
            hashes.contains(hash) <==> shorter.contains(hash) || hash == hashes.last() by {
            lemma_contains_drop_last(hashes, hash);
        }
        if resident.contains_key(key) && !shorter.contains(hashes.last()) {
            assert(leaving =~= before.insert(key));
        } else {
            assert(leaving =~= before);
        }
    }
}

/// An element of a sequence is its last one or one of the others.
proof fn lemma_contains_drop_last<A>(s: Seq<A>, x: A)
    requires
        s.len() > 0,
    ensures
        s.contains(x) <==> s.drop_last().contains(x) || x == s.last(),
{
    if s.contains(x) && x != s.last() {
        let i = s.index_of(x);
        assert(s.drop_last()[i] == x);
    }
    if s.drop_last().contains(x) {
        let i = s.drop_last().index_of(x);
        assert(s[i] == x);
    }
    assert(s[s.len() - 1] == s.last());
}

/// Removing blocks that are not resident changes nothing and records nothing.
pub proof fn lemma_unknown_remove_records_nothing(
    resident: Map<AgeKey, u128>,
    owner: ResidencyOwner,
    hashes: Seq<ExternalSequenceBlockHash>,
    times: Seq<u128>,
)
    requires
        forall|key: AgeKey| #[trigger]
            resident.contains_key(key) ==> !is_named(owner, hashes, key),
    ensures
        after_remove(resident, owner, hashes) == resident,
        lifetimes(resident, owner, hashes, times) == Seq::<u128>::empty(),
{
    assert(after_remove(resident, owner, hashes) =~= resident);
    lemma_one_lifetime_per_copy(resident, owner, hashes, times);
    assert(resident.dom().filter(|key: AgeKey| is_named(owner, hashes, key)) =~= Set::<
        AgeKey,
    >::empty());
}

/// Removing blocks undoes storing them where none of them was resident, and
/// the lifetimes recorded, for blocks that are all different, are the times
/// between the two.
pub proof fn lemma_remove_undoes_store(
    resident: Map<AgeKey, u128>,
    owner: ResidencyOwner,
    hashes: Seq<ExternalSequenceBlockHash>,
    stored: Seq<u128>,
    removed: Seq<u128>,
)
    requires
        forall|key: AgeKey| #[trigger]
            resident.contains_key(key) ==> !is_named(owner, hashes, key),
    ensures
        after_remove(after_store(resident, owner, hashes, stored), owner, hashes) == resident,
        hashes.no_duplicates() ==> lifetimes(
            after_store(resident, owner, hashes, stored),
            owner,
            hashes,
            removed,
        ) == Seq::new(hashes.len(), |i: int| spec_time_since(removed[i], stored[i])),
{
    let with_blocks = after_store(resident, owner, hashes, stored);
    assert(after_remove(with_blocks, owner, hashes) =~= resident);
    if hashes.no_duplicates() {
        assert forall|i: int| 0 <= i < hashes.len() implies {
            &&& with_blocks.contains_key(key_of(owner, #[trigger] hashes[i]))
            &&& with_blocks[key_of(owner, hashes[i])] == stored[i]
        } by {
            let key = key_of(owner, hashes[i]);
            assert(hashes.contains(hashes[i]));
            assert(is_named(owner, hashes, key));
            hashes.index_of_first_ensures(hashes[i]);
        }
        lemma_lifetimes_of_distinct_blocks(
            with_blocks,
            owner,
            hashes,
            stored,
            removed,
            hashes.len() as int,
        );
        assert(hashes.take(hashes.len() as int) == hashes);
    }
}

/// The lifetimes of the first `n` of distinct resident blocks.
proof fn lemma_lifetimes_of_distinct_blocks(
    resident: Map<AgeKey, u128>,
    owner: ResidencyOwner,
    hashes: Seq<ExternalSequenceBlockHash>,
    stored: Seq<u128>,
    removed: Seq<u128>,
    n: int,
)
    requires
        0 <= n <= hashes.len(),
        hashes.no_duplicates(),
        forall|i: int|
            0 <= i < hashes.len() ==> resident.contains_key(key_of(owner, #[trigger] hashes[i]))
                && resident[key_of(owner, hashes[i])] == stored[i],
    ensures
        lifetimes(resident, owner, hashes.take(n), removed) == Seq::new(
            n as nat,
            |i: int| spec_time_since(removed[i], stored[i]),
        ),
    decreases n,
{
    let expected = Seq::new(n as nat, |i: int| spec_time_since(removed[i], stored[i]));
    if n == 0 {
        assert(lifetimes(resident, owner, hashes.take(n), removed) =~= expected);
    } else {
        lemma_lifetimes_of_distinct_blocks(resident, owner, hashes, stored, removed, n - 1);
        let prefix = hashes.take(n);
        assert(prefix.drop_last() == hashes.take(n - 1));
        assert(prefix.last() == hashes[n - 1]);
        assert(!prefix.drop_last().contains(prefix.last())) by {
            if prefix.drop_last().contains(prefix.last()) {
                let i = prefix.drop_last().index_of(prefix.last());
                assert(hashes[i] == hashes[n - 1]);
            }
        }
        assert(lifetimes(resident, owner, prefix, removed) =~= expected);
    }
}

/// A store or remove event changes nothing of any other owner.
pub proof fn lemma_other_owners_are_untouched(
    resident: Map<AgeKey, u128>,
    event: RouterEvent,
    owner: ResidencyOwner,
    scope: Result<Option<ResetScope>, ResidencyError>,
    times: Seq<u128>,
    key: AgeKey,
)
    requires
        !(event.event.data is Cleared),
        key.owner != owner,
    ensures
        ({
            let after = after_event(resident, event, Ok(owner), scope, times);
            &&& after.contains_key(key) <==> resident.contains_key(key)
            &&& resident.contains_key(key) ==> after[key] == resident[key]
        }),
{
}

/// A copy that an event makes resident was named by it in a store. No event
/// changes the time of a copy that stays resident.
pub proof fn lemma_only_stores_add(
    resident: Map<AgeKey, u128>,
    event: RouterEvent,
    owner: Result<ResidencyOwner, ResidencyError>,
    scope: Result<Option<ResetScope>, ResidencyError>,
    times: Seq<u128>,
    key: AgeKey,
)
    requires
        after_event(resident, event, owner, scope, times).contains_key(key),
    ensures
        !resident.contains_key(key) ==> event.event.data is Stored && owner == Ok::<
            ResidencyOwner,
            ResidencyError,
        >(key.owner) && event.event.data.hashes().contains(key.block_hash),
        resident.contains_key(key) ==> after_event(resident, event, owner, scope, times)[key]
            == resident[key],
{
}

/// An event that speaks for no owner, or a clear event without a reset scope,
/// changes nothing and records nothing.
pub proof fn lemma_unresolved_event_changes_nothing(
    resident: Map<AgeKey, u128>,
    event: RouterEvent,
    owner: Result<ResidencyOwner, ResidencyError>,
    scope: Result<Option<ResetScope>, ResidencyError>,
    times: Seq<u128>,
)
    requires
        if event.event.data is Cleared {
            !(scope matches Ok(Some(_)))
        } else {
            owner is Err
        },
    ensures
        after_event(resident, event, owner, scope, times) == resident,
        event_lifetimes(resident, event, owner, times) == Seq::<u128>::empty(),
{
}

/// Two events of one cache owner do the same whichever workers report them,
/// unless they clear more than that cache owner.
pub proof fn lemma_cache_owner_survives_failover(
    resident: Map<AgeKey, u128>,
    one: RouterEvent,
    other: RouterEvent,
    times: Seq<u128>,
)
    requires
        one.residency_domain is CacheOwner,
        other == (RouterEvent {
            worker_id: other.worker_id,
            event: KvCacheEvent {
                event_id: other.event.event_id,
                dp_rank: other.event.dp_rank,
                ..one.event
            },
            ..one
        }),
        one.event.data is Cleared && one.declared_reset is Some ==> one.declared_reset == Some(
            ResetScope::Domain(ResidencyDomain::CacheOwner),
        ),
    ensures
        one.spec_residency_owner() == other.spec_residency_owner(),
        one.spec_reset_scope() == other.spec_reset_scope(),
        after_event(resident, one, one.spec_residency_owner(), one.spec_reset_scope(), times)
            == after_event(
            resident,
            other,
            other.spec_residency_owner(),
            other.spec_reset_scope(),
            times,
        ),
        event_lifetimes(resident, one, one.spec_residency_owner(), times) == event_lifetimes(
            resident,
            other,
            other.spec_residency_owner(),
            times,
        ),
{
}

/// A block of a cache owner that one worker reports as stored is found again
/// when another worker reports it as removed: nothing stays behind, and its
/// lifetime is recorded.
pub proof fn lemma_failover_leaves_nothing_behind(
    resident: Map<AgeKey, u128>,
    store: RouterEvent,
    remove: RouterEvent,
    stored: Seq<u128>,
    removed: Seq<u128>,
)
    requires
        store.event.data is Stored,
        remove.event.data is Removed,
        store.event.data.hashes() == remove.event.data.hashes(),
        store.event.data.hashes().no_duplicates(),
        store.residency_domain is CacheOwner,
        remove.residency_domain is CacheOwner,
        !(store.storage_tier is Device),
        !(remove.storage_tier is Device),
        store.state_source is Some,
        store.state_source == remove.state_source,
        forall|key: AgeKey| #[trigger]
            resident.contains_key(key) ==> !is_named(
                ResidencyOwner::CacheOwner(store.state_source->0),
                store.event.data.hashes(),
                key,
            ),
    ensures
        ({
            let held = after_event(
                resident,
                store,
                store.spec_residency_owner(),
                store.spec_reset_scope(),
                stored,
            );
            &&& after_event(
                held,
                remove,
                remove.spec_residency_owner(),
                remove.spec_reset_scope(),
                removed,
            ) == resident
            &&& event_lifetimes(held, remove, remove.spec_residency_owner(), removed) == Seq::new(
                store.event.data.hashes().len(),
                |i: int| spec_time_since(removed[i], stored[i]),
            )
        }),
{
    lemma_remove_undoes_store(
        resident,
        ResidencyOwner::CacheOwner(store.state_source->0),
        store.event.data.hashes(),
        stored,
        removed,
    );
}

/// A clear event purges the copies of the owners it reaches and no others: of
/// workers at most the rank that reports it, of cache owners at most the
/// state source.
pub proof fn lemma_clear_reaches_only_its_owners(
    resident: Map<AgeKey, u128>,
    event: RouterEvent,
    scope: ResetScope,
    key: AgeKey,
)
    requires
        resident.contains_key(key),
        match key.owner {
            ResidencyOwner::Worker(worker) => worker != event.spec_reporting_worker() || scope
                == ResetScope::Domain(ResidencyDomain::CacheOwner),
            ResidencyOwner::CacheOwner(id) => event.state_source != Some(id) || scope
                == ResetScope::Domain(ResidencyDomain::Worker),
        },
    ensures
        after_clear(resident, cleared_owners(event, scope)).contains_key(key),
        after_clear(resident, cleared_owners(event, scope))[key] == resident[key],
{
}

/// Clearing everything is clearing both domains, in either order.
pub proof fn lemma_clear_all_is_both_domains(resident: Map<AgeKey, u128>, event: RouterEvent)
    ensures
        ({
            let worker = cleared_owners(event, ResetScope::Domain(ResidencyDomain::Worker));
            let cache_owner = cleared_owners(event, ResetScope::Domain(ResidencyDomain::CacheOwner));
            let all = cleared_owners(event, ResetScope::All);
            &&& after_clear(after_clear(resident, worker), cache_owner) == after_clear(
                resident,
                all,
            )
            &&& after_clear(after_clear(resident, cache_owner), worker) == after_clear(
                resident,
                all,
            )
        }),
{
    let worker = cleared_owners(event, ResetScope::Domain(ResidencyDomain::Worker));
    let cache_owner = cleared_owners(event, ResetScope::Domain(ResidencyDomain::CacheOwner));
    let all = cleared_owners(event, ResetScope::All);
    assert(after_clear(after_clear(resident, worker), cache_owner) =~= after_clear(resident, all));
    assert(after_clear(after_clear(resident, cache_owner), worker) =~= after_clear(resident, all));
}

/// Events keep the resident copies finitely many.
pub proof fn lemma_events_keep_residency_finite(
    resident: Map<AgeKey, u128>,
    event: RouterEvent,
    owner: Result<ResidencyOwner, ResidencyError>,
    scope: Result<Option<ResetScope>, ResidencyError>,
    times: Seq<u128>,
)
    requires
        resident.dom().finite(),
    ensures
        after_event(resident, event, owner, scope, times).dom().finite(),
        after_event(resident, event, owner, scope, times).len() <= resident.len()
            + event.event.data.hashes().len(),
{
    let after = after_event(resident, event, owner, scope, times);
    let hashes = event.event.data.hashes();
    let named = hashes.map_values(|hash: ExternalSequenceBlockHash| key_of(owner->Ok_0, hash));
    let all = resident.dom().union(named.to_set());
    named.lemma_cardinality_of_set();
    vstd::set_lib::lemma_len_union(resident.dom(), named.to_set());
    assert(after.dom().subset_of(all)) by {
        assert forall|key: AgeKey| after.contains_key(key) && !resident.contains_key(
            key,
        ) implies named.contains(key) by {
            let i = hashes.index_of(key.block_hash);
            assert(named[i] == key);
        }
    }
    vstd::set_lib::lemma_len_subset(after.dom(), all);
}

/// The age statistics exist where there is a resident copy. They are ordered,
/// each is the age of a resident copy, and no resident copy is younger than
/// the smallest or older than the largest.
pub proof fn lemma_percentiles_are_ages(resident: Map<AgeKey, u128>, now: u128)
    requires
        resident.dom().finite(),
    ensures
        resident.is_empty() <==> spec_age_stats(resident_ages(resident, now)) is None,
        spec_age_stats(resident_ages(resident, now)) matches Some(stats) ==> {
            &&& stats.min <= stats.p50 <= stats.p99 <= stats.max
            &&& is_resident_age(resident, now, stats.min)
            &&& is_resident_age(resident, now, stats.p50)
            &&& is_resident_age(resident, now, stats.p99)
            &&& is_resident_age(resident, now, stats.max)
            &&& forall|key: AgeKey| #[trigger]
                resident.contains_key(key) ==> stats.min <= spec_time_since(now, resident[key])
                    <= stats.max
        },
{
    let keys = resident.dom().to_seq();
    let ages = resident_ages(resident, now);
    lemma_to_seq(resident.dom());
    assert(ages.len() == keys.len());
    if ages.len() == 0 {
        vstd::set_lib::lemma_set_empty_equivalency_len(resident.dom());
        assert(resident =~= Map::empty());
    } else {
        lemma_stats_are_ordered(ages);
        assert(keys.to_set().contains(keys[0]));
        assert(resident.contains_key(keys[0]));
        assert forall|age: u128| ages.contains(age) implies is_resident_age(resident, now, age) by {
            let i = ages.index_of(age);
            assert(keys.to_set().contains(keys[i]));
            assert(resident.contains_key(keys[i]));
        }
        assert forall|key: AgeKey| #[trigger] resident.contains_key(key) implies ages.contains(
            spec_time_since(now, resident[key]),
        ) by {
            assert(keys.to_set().contains(key));
            let i = keys.index_of(key);
            assert(ages[i] == spec_time_since(now, resident[key]));
        }
    }
}

/// Whether some resident copy has this age.
pub open spec fn is_resident_age(resident: Map<AgeKey, u128>, now: u128, age: u128) -> bool {
    exists|key: AgeKey| #[trigger]
        resident.contains_key(key) && spec_time_since(now, resident[key]) == age
}

/// A worker rank is counted where it holds a copy, and then at least once. A
/// copy counts for the worker rank that owns it and for no other, and a copy
/// of a cache owner for none.
pub proof fn lemma_each_copy_counts_for_its_worker(
    resident: Map<AgeKey, u128>,
    worker: WorkerWithDpRank,
    key: AgeKey,
)
    requires
        resident.dom().finite(),
        resident.contains_key(key),
    ensures
        held_by(resident, worker).contains(key) <==> key.owner == ResidencyOwner::Worker(worker),
        key.owner == ResidencyOwner::Worker(worker) ==> counts_by_worker(resident).contains_key(
            worker,
        ),
        counts_by_worker(resident).contains_key(worker) ==> 1 <= counts_by_worker(resident)[worker]
            <= resident.len(),
        counts_by_worker(resident).contains_key(worker) ==> exists|held: AgeKey| #[trigger]
            resident.contains_key(held) && held.owner == ResidencyOwner::Worker(worker),
{
    let held = held_by(resident, worker);
    assert(held.subset_of(resident.dom()));
    vstd::set_lib::lemma_len_subset(held, resident.dom());
    if counts_by_worker(resident).contains_key(worker) {
        let some = held.choose();
        assert(held.contains(some));
        assert(resident.contains_key(some));
        if held.len() == 0 {
            vstd::set_lib::lemma_set_empty_equivalency_len(held);
        }
    }
}

/// Copies of cache owners make no difference to the counts.
pub proof fn lemma_cache_owner_copies_are_not_counted(resident: Map<AgeKey, u128>)
    ensures
        counts_by_worker(
            resident.restrict(Set::new(|key: AgeKey| key.owner is Worker)),
        ) == counts_by_worker(resident),
{
    let of_workers = resident.restrict(Set::new(|key: AgeKey| key.owner is Worker));
    assert forall|worker: WorkerWithDpRank| #[trigger]
        held_by(of_workers, worker) == held_by(resident, worker) by {
        assert(held_by(of_workers, worker) =~= held_by(resident, worker));
    }
    assert(counts_by_worker(of_workers) =~= counts_by_worker(resident));
}

/// A block is one resident block however many owners hold a copy of it: there
/// are no more resident blocks than copies, and a further copy adds none.
pub proof fn lemma_blocks_are_counted_once(
    resident: Map<AgeKey, u128>,
    key: AgeKey,
    further: ResidencyOwner,
    time: u128,
)
    requires
        resident.dom().finite(),
        resident.contains_key(key),
    ensures
        resident_hashes(resident).finite(),
        resident_hashes(resident).len() <= resident.len(),
        resident_hashes(resident.insert(key_of(further, key.block_hash), time)) == resident_hashes(
            resident,
        ),
{
    let hash_of = |k: AgeKey| k.block_hash.0;
    assert(resident.dom().map(hash_of) =~= resident_hashes(resident)) by {
        assert forall|hash: u64| resident_hashes(resident).contains(
            hash,
        ) implies resident.dom().map(hash_of).contains(hash) by {
            let k = choose|k: AgeKey| #[trigger]
                resident.contains_key(k) && k.block_hash.0 == hash;
            assert(resident.dom().contains(k) && hash_of(k) == hash);
        }
    }
    vstd::set_lib::lemma_map_size_bound(resident.dom(), resident_hashes(resident), hash_of);
    let more = resident.insert(key_of(further, key.block_hash), time);
    assert forall|hash: u64| #[trigger] resident_hashes(more).contains(hash) <==> resident_hashes(
        resident,
    ).contains(hash) by {
        if resident_hashes(resident).contains(hash) {
            let k = choose|k: AgeKey| #[trigger]
                resident.contains_key(k) && k.block_hash.0 == hash;
            assert(more.contains_key(k));
        }
        if resident_hashes(more).contains(hash) {
            let k = choose|k: AgeKey| #[trigger] more.contains_key(k) && k.block_hash.0 == hash;
            if !resident.contains_key(k) {
                assert(resident.contains_key(key) && key.block_hash.0 == hash);
            }
        }
    }
    assert(resident_hashes(more) =~= resident_hashes(resident));
}

/// What two tiers have in common is the blocks of which each holds a copy.
pub proof fn lemma_overlap_is_shared_content(
    one: Map<AgeKey, u128>,
    other: Map<AgeKey, u128>,
    hash: ExternalSequenceBlockHash,
)
    ensures
        resident_hashes(one).intersect(resident_hashes(other)).contains(hash.0) <==> (exists|
            owner: ResidencyOwner,
        | #[trigger]
            one.contains_key(key_of(owner, hash))) && (exists|owner: ResidencyOwner| #[trigger]
            other.contains_key(key_of(owner, hash))),
{
    lemma_resident_hash(one, hash);
    lemma_resident_hash(other, hash);
}

/// A block is resident where some owner holds a copy of it.
proof fn lemma_resident_hash(resident: Map<AgeKey, u128>, hash: ExternalSequenceBlockHash)
    ensures
        resident_hashes(resident).contains(hash.0) <==> exists|owner: ResidencyOwner| #[trigger]
            resident.contains_key(key_of(owner, hash)),
{
    if resident_hashes(resident).contains(hash.0) {
        let key = choose|key: AgeKey| #[trigger]
            resident.contains_key(key) && key.block_hash.0 == hash.0;
        assert(key == key_of(key.owner, hash));
    }
}

/// What a stream of events leaves resident. Each event comes with its clock
/// readings.
pub open spec fn after_events(
    resident: Map<AgeKey, u128>,
    events: Seq<(RouterEvent, Seq<u128>)>,
) -> Map<AgeKey, u128>
    decreases events.len(),
{
    if events.len() == 0 {
        resident
    } else {
        let (event, times) = events.last();
        after_event(
            after_events(resident, events.drop_last()),
            event,
            event.spec_residency_owner(),
            event.spec_reset_scope(),
            times,
        )
    }
}

/// Whether an event reports a copy as stored.
pub open spec fn stores(event: RouterEvent, key: AgeKey) -> bool {
    &&& event.event.data is Stored
    &&& event.spec_residency_owner() == Ok::<ResidencyOwner, ResidencyError>(key.owner)
    &&& event.event.data.hashes().contains(key.block_hash)
}

/// Whether an event reports a copy as removed, or purges its owner.
pub open spec fn ends(event: RouterEvent, key: AgeKey) -> bool {
    match event.event.data {
        KvCacheEventData::Stored(_) => false,
        KvCacheEventData::Removed(_) => {
            &&& event.spec_residency_owner() == Ok::<ResidencyOwner, ResidencyError>(key.owner)
            &&& event.event.data.hashes().contains(key.block_hash)
        },
        KvCacheEventData::Cleared => match event.spec_reset_scope() {
            Ok(Some(scope)) => cleared_owners(event, scope).contains(key.owner),
            _ => false,
        },
    }
}

/// Whether a copy is resident going by the stream alone: some event reports it
/// as stored and no later one ends it.
pub open spec fn is_stored_last(events: Seq<(RouterEvent, Seq<u128>)>, key: AgeKey) -> bool {
    exists|i: int|
        0 <= i < events.len() && stores((#[trigger] events[i]).0, key) && !ends_after(
            events,
            i,
            key,
        )
}

/// Whether an event after the `i`-th ends a copy.
pub open spec fn ends_after(
    events: Seq<(RouterEvent, Seq<u128>)>,
    i: int,
    key: AgeKey,
) -> bool {
    exists|j: int| i < j < events.len() && ends((#[trigger] events[j]).0, key)
}

/// After any stream of events, exactly those copies are resident that the
/// stream stored and has not ended since.
pub proof fn lemma_resident_is_stored_and_not_ended(
    events: Seq<(RouterEvent, Seq<u128>)>,
    key: AgeKey,
)
    ensures
        after_events(Map::empty(), events).contains_key(key) <==> is_stored_last(events, key),
    decreases events.len(),
{
    let n = events.len() - 1;
    if events.len() > 0 {
        let shorter = events.drop_last();
        let last = events.last().0;
        lemma_resident_is_stored_and_not_ended(shorter, key);
        assert(events[n].0 == last);
        if is_stored_last(shorter, key) && !ends(last, key) {
            let i = choose|i: int|
                0 <= i < shorter.len() && stores((#[trigger] shorter[i]).0, key) && !ends_after(
                    shorter,
                    i,
                    key,
                );
            assert(events[i] == shorter[i]);
            assert(!ends_after(events, i, key)) by {
                if ends_after(events, i, key) {
                    let j = choose|j: int|
                        i < j < events.len() && ends((#[trigger] events[j]).0, key);
                    assert(shorter[j] == events[j]);
                }
            }
        }
        if stores(last, key) {
            assert(!ends_after(events, n, key));
        }
        if is_stored_last(events, key) && !stores(last, key) {
            let i = choose|i: int|
                0 <= i < events.len() && stores((#[trigger] events[i]).0, key) && !ends_after(
                    events,
                    i,
                    key,
                );
            assert(shorter[i] == events[i]);
            assert(!ends_after(shorter, i, key)) by {
                if ends_after(shorter, i, key) {
                    let j = choose|j: int|
                        i < j < shorter.len() && ends((#[trigger] shorter[j]).0, key);
                    assert(events[j] == shorter[j]);
                }
            }
        }
    }
}

/// Whether the `i`-th event is the one a copy is resident since: it made the
/// copy resident, and no later one ended it.
pub open spec fn is_resident_since(
    events: Seq<(RouterEvent, Seq<u128>)>,
    i: int,
    key: AgeKey,
) -> bool {
    &&& stores(events[i].0, key)
    &&& !after_events(Map::empty(), events.take(i)).contains_key(key)
    &&& !ends_after(events, i, key)
}

/// The time of a resident copy is a reading of the event it is resident since,
/// at the first mention of its block there, however often it was reported as
/// stored again.
pub proof fn lemma_resident_time_is_first_store(
    events: Seq<(RouterEvent, Seq<u128>)>,
    key: AgeKey,
)
    requires
        after_events(Map::empty(), events).contains_key(key),
    ensures
        exists|i: int|
            0 <= i < events.len() && #[trigger] is_resident_since(events, i, key) && after_events(
                Map::empty(),
                events,
            )[key] == events[i].1[events[i].0.event.data.hashes().index_of_first(
                key.block_hash,
            )->0],
    decreases events.len(),
{
    let n = events.len() - 1;
    let shorter = events.drop_last();
    let last = events.last().0;
    let before = after_events(Map::empty(), shorter);
    if before.contains_key(key) {
        lemma_resident_time_is_first_store(shorter, key);
        let i = choose|i: int|
            0 <= i < shorter.len() && #[trigger] is_resident_since(shorter, i, key) && before[key]
                == shorter[i].1[shorter[i].0.event.data.hashes().index_of_first(
                key.block_hash,
            )->0];
        assert(events[i] == shorter[i]);
        assert(events.take(i) == shorter.take(i));
        assert(!ends(last, key));
        assert(!ends_after(events, i, key)) by {
            if ends_after(events, i, key) {
                let j = choose|j: int| i < j < events.len() && ends((#[trigger] events[j]).0, key);
                if j < n {
                    assert(shorter[j] == events[j]);
                }
            }
        }
        assert(is_resident_since(events, i, key));
    } else {
        assert(stores(last, key));
        assert(events.take(n) == shorter);
        assert(is_resident_since(events, n, key));
    }
}

} // verus!
