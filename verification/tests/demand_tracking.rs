use std::time::Duration;

use kv_router::indexer::demand_tracking::DemandTracker;
use kv_router::protocols::{
    DpRank, ExternalSequenceBlockHash, KvCacheEvent, KvCacheEventData, KvCacheRemoveData,
    KvCacheStoreData, KvCacheStoredBlockData, LocalBlockHash, RouterEvent, StorageTier, WorkerId,
};

fn store_all_event(worker_id: WorkerId, dp_rank: DpRank, hashes: &[u64]) -> RouterEvent {
    RouterEvent::with_storage_tier(
        worker_id,
        KvCacheEvent {
            event_id: 1,
            data: KvCacheEventData::Stored(KvCacheStoreData {
                parent_hash: None,
                start_position: None,
                blocks: hashes
                    .iter()
                    .map(|hash| KvCacheStoredBlockData {
                        block_hash: ExternalSequenceBlockHash(*hash),
                        tokens_hash: LocalBlockHash(*hash),
                    })
                    .collect(),
            }),
            dp_rank,
        },
        StorageTier::Device,
    )
}

fn store_event(worker_id: WorkerId, dp_rank: DpRank, hash: u64) -> RouterEvent {
    store_all_event(worker_id, dp_rank, &[hash])
}

fn remove_event(worker_id: WorkerId, dp_rank: DpRank, hash: u64) -> RouterEvent {
    RouterEvent::with_storage_tier(
        worker_id,
        KvCacheEvent {
            event_id: 2,
            data: KvCacheEventData::Removed(KvCacheRemoveData {
                block_hashes: vec![ExternalSequenceBlockHash(hash)],
            }),
            dp_rank,
        },
        StorageTier::Device,
    )
}

fn cleared_event(worker_id: WorkerId) -> RouterEvent {
    RouterEvent::with_storage_tier(
        worker_id,
        KvCacheEvent { event_id: 3, data: KvCacheEventData::Cleared, dp_rank: 0 },
        StorageTier::Device,
    )
}

#[test]
fn distinct_store_across_workers_counts_once() {
    let mut tracker = DemandTracker::new();
    tracker.observe_event(&store_event(1, 0, 42));
    tracker.observe_event(&store_event(2, 0, 42));
    assert_eq!(tracker.prune_and_count(Duration::from_secs(3600).as_nanos()), 1);
}

#[test]
fn distinct_hashes_count_separately() {
    let mut tracker = DemandTracker::new();
    tracker.observe_event(&store_event(1, 0, 42));
    tracker.observe_event(&store_event(1, 0, 43));
    assert_eq!(tracker.prune_and_count(Duration::from_secs(3600).as_nanos()), 2);
}

#[test]
fn remove_does_not_uncount_demand() {
    let mut tracker = DemandTracker::new();
    tracker.observe_event(&store_event(1, 0, 42));
    tracker.observe_event(&remove_event(1, 0, 42));
    assert_eq!(tracker.prune_and_count(Duration::from_secs(3600).as_nanos()), 1);
}

#[test]
fn entries_older_than_window_are_pruned() {
    let mut tracker = DemandTracker::new();
    tracker.observe_event(&store_event(1, 0, 42));
    assert_eq!(tracker.prune_and_count(Duration::from_secs(0).as_nanos()), 0);
}

#[test]
fn clear_does_not_uncount_demand() {
    let mut tracker = DemandTracker::default();
    tracker.observe_event(&store_event(1, 0, 42));
    tracker.observe_event(&cleared_event(1));
    assert_eq!(tracker.prune_and_count(Duration::from_secs(3600).as_nanos()), 1);
}

#[test]
fn blocks_leave_when_they_are_as_old_as_the_window() {
    let mut tracker = DemandTracker::new();
    tracker.observe_event_at(&store_all_event(1, 0, &[1, 2, 3]), &vec![100, 200, 300]);
    assert_eq!(tracker.prune_and_count_at(400, 301), 3);
    assert_eq!(tracker.prune_and_count_at(400, 300), 2);
    assert_eq!(tracker.prune_and_count_at(450, 200), 1);
    assert_eq!(tracker.prune_and_count_at(500, 200), 0);
}

#[test]
fn a_block_stored_again_ages_from_its_first_store() {
    let mut tracker = DemandTracker::new();
    tracker.observe_event_at(&store_all_event(1, 0, &[1, 1]), &vec![100, 150]);
    tracker.observe_event_at(&store_event(2, 0, 1), &vec![390]);
    assert_eq!(tracker.prune_and_count_at(400, 300), 0);
    tracker.observe_event_at(&store_event(2, 0, 1), &vec![410]);
    assert_eq!(tracker.prune_and_count_at(420, 300), 1);
}

#[test]
fn pruning_on_the_way_changes_no_count() {
    let mut often = DemandTracker::new();
    let mut once = DemandTracker::new();
    let event = store_all_event(1, 0, &[1, 2, 3, 4]);
    let times = vec![0, 10, 20, 30];
    often.observe_event_at(&event, &times);
    once.observe_event_at(&event, &times);
    for now in 0..40 {
        often.prune_and_count_at(now, 15);
    }
    assert_eq!(often.prune_and_count_at(40, 15), 1);
    assert_eq!(once.prune_and_count_at(40, 15), 1);
}

#[test]
fn a_block_from_the_future_has_no_age() {
    let mut tracker = DemandTracker::new();
    tracker.observe_event_at(&store_event(1, 0, 1), &vec![500]);
    assert_eq!(tracker.prune_and_count_at(400, 1), 1);
    assert_eq!(tracker.prune_and_count_at(400, 0), 0);
}

#[test]
fn pruning_never_reads_before_a_time_seen() {
    let ahead: u128 = 1 << 100;
    let mut tracker = DemandTracker::new();
    tracker.observe_event_at(&store_all_event(1, 0, &[1, 2]), &vec![ahead, 5]);
    assert_eq!(tracker.prune_and_count(ahead - 5), 1);
    tracker.prune_and_count_at(3 * ahead, 3 * ahead);
    tracker.observe_event(&store_event(1, 0, 3));
    assert_eq!(tracker.prune_and_count(ahead), 1);
}

#[test]
fn blocks_age_out_as_time_passes() {
    let mut tracker = DemandTracker::new();
    tracker.observe_event(&store_event(1, 0, 42));
    let start = std::time::Instant::now();
    while start.elapsed().as_millis() < 20 {}
    assert_eq!(tracker.prune_and_count(Duration::from_millis(20).as_nanos()), 0);
}
