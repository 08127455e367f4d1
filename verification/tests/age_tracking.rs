use kv_router::identity::{
    CacheOwnerId, CacheSemanticsId, DcId, IdentitySource, IndexerDomainId, PoolId, RoutingScopeId,
    StableDpSlotId,
};
use kv_router::indexer::age_tracking::AgeTracker;
use kv_router::indexer::metrics::KvIndexerMetrics;
use kv_router::protocols::{
    DpRank, ExternalSequenceBlockHash, KvCacheEvent, KvCacheEventData, KvCacheRemoveData,
    KvCacheStoreData, KvCacheStoredBlockData, LocalBlockHash, ResetScope, ResidencyDomain,
    ResidencyError, ResidencyOwner, RouterEvent, StorageTier, WorkerId, WorkerWithDpRank,
};

fn cache_owner_id() -> CacheOwnerId {
    CacheOwnerId::new(
        PoolId::new(
            IndexerDomainId::new(
                CacheSemanticsId::new([1; 16], IdentitySource::Explicit),
                RoutingScopeId::new([2; 16], IdentitySource::Explicit),
            ),
            DcId::new(3),
        ),
        StableDpSlotId::new([4; 16], IdentitySource::Explicit),
    )
}

fn other_cache_owner_id() -> CacheOwnerId {
    let mut slot = [4; 16];
    slot[15] = 5;
    CacheOwnerId::new(
        cache_owner_id().pool,
        StableDpSlotId::new(slot, IdentitySource::Explicit),
    )
}

fn stored(hashes: &[u64]) -> KvCacheEventData {
    KvCacheEventData::Stored(KvCacheStoreData {
        parent_hash: None,
        start_position: None,
        blocks: hashes
            .iter()
            .map(|hash| KvCacheStoredBlockData {
                block_hash: ExternalSequenceBlockHash(*hash),
                tokens_hash: LocalBlockHash(*hash),
            })
            .collect(),
    })
}

fn removed(hashes: &[u64]) -> KvCacheEventData {
    KvCacheEventData::Removed(KvCacheRemoveData {
        block_hashes: hashes
            .iter()
            .map(|hash| ExternalSequenceBlockHash(*hash))
            .collect(),
    })
}

fn cache_owner_store_event(worker_id: WorkerId, hash: u64, tier: StorageTier) -> RouterEvent {
    RouterEvent::with_cache_owner(
        worker_id,
        KvCacheEvent { event_id: 1, data: stored(&[hash]), dp_rank: 0 },
        tier,
        cache_owner_id(),
    )
}

fn cache_owner_remove_event(worker_id: WorkerId, hash: u64, tier: StorageTier) -> RouterEvent {
    RouterEvent::with_cache_owner(
        worker_id,
        KvCacheEvent { event_id: 2, data: removed(&[hash]), dp_rank: 0 },
        tier,
        cache_owner_id(),
    )
}

fn store_event(worker_id: WorkerId, dp_rank: DpRank, hash: u64, tier: StorageTier) -> RouterEvent {
    store_all_event(worker_id, dp_rank, &[hash], tier)
}

fn store_all_event(
    worker_id: WorkerId,
    dp_rank: DpRank,
    hashes: &[u64],
    tier: StorageTier,
) -> RouterEvent {
    RouterEvent::with_storage_tier(
        worker_id,
        KvCacheEvent { event_id: 1, data: stored(hashes), dp_rank },
        tier,
    )
}

fn remove_event(worker_id: WorkerId, dp_rank: DpRank, hash: u64, tier: StorageTier) -> RouterEvent {
    remove_all_event(worker_id, dp_rank, &[hash], tier)
}

fn remove_all_event(
    worker_id: WorkerId,
    dp_rank: DpRank,
    hashes: &[u64],
    tier: StorageTier,
) -> RouterEvent {
    RouterEvent::with_storage_tier(
        worker_id,
        KvCacheEvent { event_id: 2, data: removed(hashes), dp_rank },
        tier,
    )
}

fn cleared_event(worker_id: WorkerId, dp_rank: DpRank) -> RouterEvent {
    RouterEvent::with_storage_tier(
        worker_id,
        KvCacheEvent { event_id: 3, data: KvCacheEventData::Cleared, dp_rank },
        StorageTier::Device,
    )
}

fn worker(worker_id: WorkerId, dp_rank: DpRank) -> ResidencyOwner {
    ResidencyOwner::worker(WorkerWithDpRank::new(worker_id, dp_rank))
}

fn observe_at(
    tracker: &mut AgeTracker,
    event: &RouterEvent,
    times: &[u128],
    metrics: Option<&mut KvIndexerMetrics>,
) {
    assert_eq!(times.len(), event.event.data.block_count());
    tracker.observe_resolved_event(
        event,
        event.residency_owner(),
        event.reset_scope(),
        &times.to_vec(),
        metrics,
    );
}

#[test]
fn store_then_remove_records_one_lifetime_sample() {
    let mut tracker = AgeTracker::new();
    let mut metrics = KvIndexerMetrics::new_unregistered();

    tracker.observe_event(&store_event(1, 0, 42, StorageTier::Device), Some(&mut metrics));
    tracker.observe_event(&remove_event(1, 0, 42, StorageTier::Device), Some(&mut metrics));

    assert_eq!(metrics.block_lifetime_sample_count("device"), 1);
    assert_eq!(tracker.resident_copies(), 0);
}

#[test]
fn remove_without_prior_store_records_nothing() {
    let mut tracker = AgeTracker::new();
    let mut metrics = KvIndexerMetrics::new_unregistered();

    tracker.observe_event(&remove_event(1, 0, 42, StorageTier::Device), Some(&mut metrics));

    assert_eq!(metrics.block_lifetime_sample_count("device"), 0);
}

#[test]
fn duplicate_store_does_not_reset_insertion_time() {
    let mut tracker = AgeTracker::new();
    tracker.observe_event(&store_event(1, 0, 42, StorageTier::Device), None);
    let first = tracker.inserted_at(worker(1, 0), ExternalSequenceBlockHash(42));
    assert!(first.is_some());
    tracker.observe_event(&store_event(1, 0, 42, StorageTier::Device), None);
    assert_eq!(tracker.resident_copies(), 1);
    assert_eq!(tracker.inserted_at(worker(1, 0), ExternalSequenceBlockHash(42)), first);
}

#[test]
fn host_pinned_tier_labels_its_own_histogram_series() {
    let mut tracker = AgeTracker::new();
    let mut metrics = KvIndexerMetrics::new_unregistered();

    tracker.observe_event(&store_event(1, 0, 42, StorageTier::HostPinned), Some(&mut metrics));
    tracker.observe_event(&remove_event(1, 0, 42, StorageTier::HostPinned), Some(&mut metrics));

    assert_eq!(metrics.block_lifetime_sample_count("host_pinned"), 1);
    assert_eq!(metrics.block_lifetime_sample_count("device"), 0);
}

#[test]
fn cleared_purges_only_that_worker_dp_rank() {
    let mut tracker = AgeTracker::new();
    tracker.observe_event(&store_event(1, 0, 42, StorageTier::Device), None);
    tracker.observe_event(&store_event(2, 0, 43, StorageTier::Device), None);

    tracker.observe_event(&cleared_event(1, 0), None);

    assert_eq!(tracker.resident_copies(), 1);
    assert!(tracker.inserted_at(worker(2, 0), ExternalSequenceBlockHash(43)).is_some());
}

#[test]
fn resident_block_counts_by_worker_groups_by_owner() {
    let mut tracker = AgeTracker::new();
    tracker.observe_event(&store_event(1, 0, 42, StorageTier::Device), None);
    tracker.observe_event(&store_event(1, 0, 43, StorageTier::Device), None);
    tracker.observe_event(&store_event(2, 0, 44, StorageTier::Device), None);

    let counts = tracker.resident_block_counts_by_worker();
    assert_eq!(
        counts.get(&WorkerWithDpRank::new(1, 0)),
        Some(2),
        "worker 1 has two resident blocks"
    );
    assert_eq!(
        counts.get(&WorkerWithDpRank::new(2, 0)),
        Some(1),
        "worker 2 has one resident block"
    );
    assert_eq!(counts.len(), 2, "no phantom or missing workers");
}

#[test]
fn resident_block_counts_by_worker_skips_cache_owner_entries() {
    let mut tracker = AgeTracker::new();
    tracker.observe_event(&cache_owner_store_event(1, 99, StorageTier::HostPinned), None);
    tracker.observe_event(&store_event(2, 0, 100, StorageTier::HostPinned), None);

    let counts = tracker.resident_block_counts_by_worker();
    assert_eq!(
        counts.len(),
        1,
        "the CacheOwner-domain entry must not appear under any worker key"
    );
    assert_eq!(counts.get(&WorkerWithDpRank::new(2, 0)), Some(1));
}

#[test]
fn resident_block_hashes_dedupes_across_owners() {
    let mut tracker = AgeTracker::new();
    tracker.observe_event(&store_event(1, 0, 42, StorageTier::Device), None);
    tracker.observe_event(&store_event(2, 0, 42, StorageTier::Device), None);
    tracker.observe_event(&store_event(1, 0, 43, StorageTier::Device), None);

    let hashes = tracker.resident_block_hashes();
    assert_eq!(hashes.len(), 2);
    assert!(hashes.contains(&ExternalSequenceBlockHash(42).0));
    assert!(hashes.contains(&ExternalSequenceBlockHash(43).0));
}

#[test]
fn cache_owner_identity_survives_worker_failover() {
    let mut tracker = AgeTracker::new();
    let mut metrics = KvIndexerMetrics::new_unregistered();

    tracker.observe_event(
        &cache_owner_store_event(1, 99, StorageTier::HostPinned),
        Some(&mut metrics),
    );
    assert_eq!(tracker.resident_copies(), 1);

    tracker.observe_event(
        &cache_owner_remove_event(2, 99, StorageTier::HostPinned),
        Some(&mut metrics),
    );

    assert_eq!(
        tracker.resident_copies(),
        0,
        "the entry must be found and removed via the stable cache-owner identity, \
         not orphaned under worker 1's id"
    );
    assert_eq!(
        metrics.block_lifetime_sample_count("host_pinned"),
        1,
        "the lifetime sample must still be recorded despite the worker_id change"
    );
}

#[test]
fn lifetime_is_the_time_between_store_and_remove() {
    let mut tracker = AgeTracker::new();
    let mut metrics = KvIndexerMetrics::new_unregistered();
    observe_at(&mut tracker, &store_all_event(1, 0, &[7, 8, 9], StorageTier::Disk), &[10, 20, 30], None);
    observe_at(
        &mut tracker,
        &remove_all_event(1, 0, &[9, 5, 7], StorageTier::Disk),
        &[100, 200, 300],
        Some(&mut metrics),
    );
    let taken = metrics.take_block_lifetimes();
    assert_eq!(taken.len(), 2);
    assert_eq!((taken[0].tier_label, taken[0].nanos), ("disk", 70));
    assert_eq!((taken[1].tier_label, taken[1].nanos), ("disk", 290));
    assert_eq!(metrics.block_lifetime_sample_count("disk"), 0);
    assert_eq!(tracker.resident_copies(), 1);
    assert_eq!(tracker.inserted_at(worker(1, 0), ExternalSequenceBlockHash(8)), Some(20));
}

#[test]
fn lifetime_is_zero_where_the_clock_ran_backwards() {
    let mut tracker = AgeTracker::new();
    let mut metrics = KvIndexerMetrics::new_unregistered();
    observe_at(&mut tracker, &store_event(1, 0, 7, StorageTier::Device), &[50], None);
    observe_at(&mut tracker, &remove_event(1, 0, 7, StorageTier::Device), &[40], Some(&mut metrics));
    assert_eq!(metrics.take_block_lifetimes()[0].nanos, 0);
}

#[test]
fn repeated_mentions_keep_the_first_reading_and_end_once() {
    let mut tracker = AgeTracker::new();
    let mut metrics = KvIndexerMetrics::new_unregistered();
    observe_at(&mut tracker, &store_all_event(1, 0, &[7, 7], StorageTier::Device), &[10, 20], None);
    assert_eq!(tracker.resident_copies(), 1);
    assert_eq!(tracker.inserted_at(worker(1, 0), ExternalSequenceBlockHash(7)), Some(10));
    observe_at(&mut tracker, &store_event(1, 0, 7, StorageTier::Device), &[30], None);
    assert_eq!(tracker.inserted_at(worker(1, 0), ExternalSequenceBlockHash(7)), Some(10));
    observe_at(
        &mut tracker,
        &remove_all_event(1, 0, &[7, 7], StorageTier::Device),
        &[100, 200],
        Some(&mut metrics),
    );
    assert_eq!(metrics.block_lifetime_sample_count("device"), 1);
    assert_eq!(metrics.take_block_lifetimes()[0].nanos, 90);
}

#[test]
fn removal_without_metrics_still_ends_residency() {
    let mut tracker = AgeTracker::new();
    tracker.observe_event(&store_event(1, 0, 7, StorageTier::Device), None);
    tracker.observe_event(&remove_event(1, 0, 7, StorageTier::Device), None);
    assert_eq!(tracker.resident_copies(), 0);
}

#[test]
fn removal_by_another_owner_changes_nothing() {
    let mut tracker = AgeTracker::new();
    let mut metrics = KvIndexerMetrics::new_unregistered();
    tracker.observe_event(&store_event(1, 0, 7, StorageTier::Device), None);
    tracker.observe_event(&remove_event(1, 1, 7, StorageTier::Device), Some(&mut metrics));
    tracker.observe_event(&remove_event(2, 0, 7, StorageTier::Device), Some(&mut metrics));
    assert_eq!(metrics.block_lifetime_sample_count("device"), 0);
    assert!(tracker.inserted_at(worker(1, 0), ExternalSequenceBlockHash(7)).is_some());
}

#[test]
fn cache_owner_event_on_the_device_tier_is_skipped() {
    let mut tracker = AgeTracker::new();
    let event = cache_owner_store_event(1, 99, StorageTier::Device);
    assert_eq!(event.residency_owner(), Err(ResidencyError::CacheOwnerOnDevice));
    tracker.observe_event(&event, None);
    assert_eq!(tracker.resident_copies(), 0);
}

#[test]
fn cache_owner_event_without_state_source_is_skipped() {
    let mut tracker = AgeTracker::new();
    let mut event = cache_owner_store_event(1, 99, StorageTier::HostPinned);
    event.state_source = None;
    assert_eq!(event.residency_owner(), Err(ResidencyError::MissingStateSource));
    tracker.observe_event(&event, None);
    assert_eq!(tracker.resident_copies(), 0);
}

#[test]
fn different_cache_owners_hold_different_copies() {
    let mut tracker = AgeTracker::new();
    tracker.observe_event(&cache_owner_store_event(1, 99, StorageTier::HostPinned), None);
    let mut event = cache_owner_store_event(1, 99, StorageTier::HostPinned);
    event.state_source = Some(other_cache_owner_id());
    tracker.observe_event(&event, None);
    assert_eq!(tracker.resident_copies(), 2);
    assert_eq!(tracker.resident_block_hashes().len(), 1);
}

fn tracker_with_three_owners() -> AgeTracker {
    let mut tracker = AgeTracker::new();
    tracker.observe_event(&store_event(1, 0, 42, StorageTier::HostPinned), None);
    tracker.observe_event(&store_event(1, 1, 42, StorageTier::HostPinned), None);
    tracker.observe_event(&cache_owner_store_event(1, 42, StorageTier::HostPinned), None);
    tracker
}

fn clear_of_cache_owner(scope: Option<ResetScope>) -> RouterEvent {
    let mut event = RouterEvent::with_cache_owner(
        1,
        KvCacheEvent { event_id: 4, data: KvCacheEventData::Cleared, dp_rank: 0 },
        StorageTier::HostPinned,
        cache_owner_id(),
    );
    event.declared_reset = scope;
    event
}

#[test]
fn clear_of_all_purges_the_worker_rank_and_the_state_source() {
    let mut tracker = tracker_with_three_owners();
    tracker.observe_event(&clear_of_cache_owner(Some(ResetScope::All)), None);
    assert_eq!(tracker.resident_copies(), 1);
    assert!(tracker.inserted_at(worker(1, 1), ExternalSequenceBlockHash(42)).is_some());
}

#[test]
fn clear_of_all_without_state_source_purges_the_worker_rank() {
    let mut tracker = tracker_with_three_owners();
    let mut event = clear_of_cache_owner(Some(ResetScope::All));
    event.state_source = None;
    tracker.observe_event(&event, None);
    assert_eq!(tracker.resident_copies(), 2);
    assert!(tracker.inserted_at(worker(1, 0), ExternalSequenceBlockHash(42)).is_none());
}

#[test]
fn clear_of_the_worker_domain_spares_the_state_source() {
    let mut tracker = tracker_with_three_owners();
    let scope = ResetScope::Domain(ResidencyDomain::Worker);
    tracker.observe_event(&clear_of_cache_owner(Some(scope)), None);
    assert_eq!(tracker.resident_copies(), 2);
    assert!(tracker.inserted_at(worker(1, 0), ExternalSequenceBlockHash(42)).is_none());
}

#[test]
fn clear_of_the_cache_owner_domain_spares_workers() {
    let mut tracker = tracker_with_three_owners();
    tracker.observe_event(&clear_of_cache_owner(None), None);
    assert_eq!(tracker.resident_copies(), 2);
    assert!(tracker
        .inserted_at(ResidencyOwner::cache_owner(cache_owner_id()), ExternalSequenceBlockHash(42))
        .is_none());
}

#[test]
fn clear_of_the_cache_owner_domain_without_state_source_purges_nothing() {
    let mut tracker = tracker_with_three_owners();
    let mut event = clear_of_cache_owner(None);
    event.state_source = None;
    tracker.observe_event(&event, None);
    assert_eq!(tracker.resident_copies(), 3);
}

#[test]
fn clear_that_resolves_to_no_scope_purges_nothing() {
    let mut tracker = tracker_with_three_owners();
    let event = clear_of_cache_owner(None);
    tracker.observe_resolved_event(&event, event.residency_owner(), Ok(None), &Vec::new(), None);
    tracker.observe_resolved_event(
        &event,
        event.residency_owner(),
        Err(ResidencyError::MissingStateSource),
        &Vec::new(),
        None,
    );
    assert_eq!(tracker.resident_copies(), 3);
}

#[test]
fn clear_records_no_lifetimes() {
    let mut tracker = AgeTracker::new();
    let mut metrics = KvIndexerMetrics::new_unregistered();
    tracker.observe_event(&store_event(1, 0, 42, StorageTier::Device), Some(&mut metrics));
    tracker.observe_event(&cleared_event(1, 0), Some(&mut metrics));
    assert_eq!(tracker.resident_copies(), 0);
    assert!(metrics.take_block_lifetimes().is_empty());
}

#[test]
fn no_resident_copies_have_no_percentiles() {
    let tracker = AgeTracker::default();
    assert!(tracker.resident_age_percentiles().is_none());
    assert!(tracker.resident_age_percentiles_at(100).is_none());
}

#[test]
fn percentiles_of_one_copy_are_its_age() {
    let mut tracker = AgeTracker::new();
    observe_at(&mut tracker, &store_event(1, 0, 42, StorageTier::Device), &[30], None);
    let stats = tracker.resident_age_percentiles_at(100).unwrap();
    assert_eq!((stats.min, stats.p50, stats.p99, stats.max), (70, 70, 70, 70));
    let early = tracker.resident_age_percentiles_at(10).unwrap();
    assert_eq!(early.max, 0);
    assert!(tracker.resident_age_percentiles().is_some());
}

#[test]
fn percentiles_of_many_copies() {
    let mut tracker = AgeTracker::new();
    let hashes: Vec<u64> = (0..200).collect();
    let times: Vec<u128> = (0..200).map(|i| 1000 - i).collect();
    observe_at(&mut tracker, &store_all_event(1, 0, &hashes, StorageTier::Device), &times, None);
    let stats = tracker.resident_age_percentiles_at(1000).unwrap();
    assert_eq!((stats.min, stats.p50, stats.p99, stats.max), (0, 100, 198, 199));
}

#[test]
fn percentiles_now_lie_between_readings_of_a_clock() {
    let mut tracker = AgeTracker::new();
    let before = std::time::Instant::now();
    tracker.observe_event(&store_event(1, 0, 42, StorageTier::Device), None);
    let stats = tracker.resident_age_percentiles().unwrap();
    assert!(stats.max <= before.elapsed().as_nanos());
}

#[test]
fn the_clock_of_a_tracker_runs() {
    let mut tracker = AgeTracker::new();
    tracker.observe_event(&store_event(1, 0, 42, StorageTier::Device), None);
    let start = std::time::Instant::now();
    while start.elapsed().as_millis() < 20 {}
    tracker.observe_event(&store_event(1, 0, 43, StorageTier::Device), None);
    let first = tracker.inserted_at(worker(1, 0), ExternalSequenceBlockHash(42)).unwrap();
    let second = tracker.inserted_at(worker(1, 0), ExternalSequenceBlockHash(43)).unwrap();
    assert!(second - first >= 20_000_000);
}

#[test]
fn counts_tell_ranks_of_a_worker_apart() {
    let mut tracker = AgeTracker::new();
    tracker.observe_event(&store_event(1, 0, 42, StorageTier::Device), None);
    tracker.observe_event(&store_event(1, 1, 42, StorageTier::Device), None);
    tracker.observe_event(&store_event(u64::MAX, u32::MAX, 42, StorageTier::Device), None);
    let counts = tracker.resident_block_counts_by_worker();
    assert_eq!(counts.len(), 3);
    assert_eq!(counts.get(&WorkerWithDpRank::new(u64::MAX, u32::MAX)), Some(1));
    assert_eq!(counts.get(&WorkerWithDpRank::new(2, 0)), None);
    let mut entries = counts.entries().clone();
    entries.sort_by_key(|entry| (entry.0.worker_id, entry.0.dp_rank));
    assert_eq!(entries[1], (WorkerWithDpRank::new(1, 1), 1));
}

#[test]
fn evicted_worker_is_absent_from_the_counts() {
    let mut tracker = AgeTracker::new();
    tracker.observe_event(&store_event(1, 0, 42, StorageTier::Device), None);
    tracker.observe_event(&remove_event(1, 0, 42, StorageTier::Device), None);
    assert_eq!(tracker.resident_block_counts_by_worker().len(), 0);
}

#[test]
fn overlap_of_two_tiers_is_the_shared_blocks() {
    let mut device = AgeTracker::new();
    let mut host = AgeTracker::new();
    device.observe_event(&store_all_event(1, 0, &[1, 2, 3], StorageTier::Device), None);
    host.observe_event(&store_all_event(2, 0, &[3, 4], StorageTier::HostPinned), None);
    host.observe_event(&cache_owner_store_event(2, 1, StorageTier::HostPinned), None);
    let mut shared: Vec<u64> = device
        .resident_block_hashes()
        .intersection(&host.resident_block_hashes())
        .copied()
        .collect();
    shared.sort();
    assert_eq!(shared, vec![1, 3]);
}

#[test]
fn a_block_stored_again_after_its_end_ages_from_then() {
    let mut tracker = AgeTracker::new();
    observe_at(&mut tracker, &store_event(1, 0, 7, StorageTier::Device), &[10], None);
    observe_at(&mut tracker, &remove_event(1, 0, 7, StorageTier::Device), &[20], None);
    assert_eq!(tracker.inserted_at(worker(1, 0), ExternalSequenceBlockHash(7)), None);
    observe_at(&mut tracker, &store_event(1, 0, 7, StorageTier::Device), &[30], None);
    observe_at(&mut tracker, &store_event(1, 0, 7, StorageTier::Device), &[40], None);
    assert_eq!(tracker.inserted_at(worker(1, 0), ExternalSequenceBlockHash(7)), Some(30));
    observe_at(&mut tracker, &cleared_event(1, 0), &[], None);
    assert_eq!(tracker.inserted_at(worker(1, 0), ExternalSequenceBlockHash(7)), None);
}

#[test]
fn readings_never_lie_before_a_tracked_time() {
    let ahead: u128 = 1 << 100;
    let mut tracker = AgeTracker::new();
    let mut metrics = KvIndexerMetrics::new_unregistered();
    observe_at(&mut tracker, &store_all_event(1, 0, &[7, 8], StorageTier::Device), &[ahead, 5], None);
    tracker.observe_event(&store_event(1, 0, 9, StorageTier::Device), None);
    let later = tracker.inserted_at(worker(1, 0), ExternalSequenceBlockHash(9)).unwrap();
    assert!(later >= ahead);
    let stats = tracker.resident_age_percentiles().unwrap();
    assert!(stats.max >= ahead - 5);
    tracker.observe_event(&remove_event(1, 0, 8, StorageTier::Device), Some(&mut metrics));
    assert!(metrics.take_block_lifetimes()[0].nanos >= ahead - 5);
}

#[test]
fn blocks_of_one_event_are_stored_in_order() {
    let mut tracker = AgeTracker::new();
    let hashes: Vec<u64> = (0..50).collect();
    tracker.observe_event(&store_all_event(1, 0, &hashes, StorageTier::Device), None);
    let times: Vec<u128> = hashes
        .iter()
        .map(|hash| tracker.inserted_at(worker(1, 0), ExternalSequenceBlockHash(*hash)).unwrap())
        .collect();
    for pair in times.windows(2) {
        assert!(pair[0] <= pair[1]);
    }
}
