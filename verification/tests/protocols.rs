use kv_router::identity::{
    CacheOwnerId, CacheSemanticsId, DcId, IdentitySource, IndexerDomainId, PoolId, RoutingScopeId,
    StableDpSlotId,
};
use kv_router::indexer::age_key::AgeKey;
use kv_router::indexer::metrics::{tier_label, KvIndexerMetrics};
use kv_router::protocols::{
    ExternalSequenceBlockHash, KvCacheEvent, KvCacheEventData, KvCacheRemoveData, ResetScope,
    ResidencyDomain, ResidencyError, ResidencyOwner, RouterEvent, StorageTier, WorkerWithDpRank,
};

fn owner(semantics: u8, scope: u8, dc: u64, slot: u8) -> CacheOwnerId {
    CacheOwnerId::new(
        PoolId::new(
            IndexerDomainId::new(
                CacheSemanticsId::new([semantics; 16], IdentitySource::Explicit),
                RoutingScopeId::new([scope; 16], IdentitySource::Explicit),
            ),
            DcId::new(dc),
        ),
        StableDpSlotId::new([slot; 16], IdentitySource::Explicit),
    )
}

fn removal() -> KvCacheEvent {
    KvCacheEvent {
        event_id: 9,
        data: KvCacheEventData::Removed(KvCacheRemoveData {
            block_hashes: vec![ExternalSequenceBlockHash(5), ExternalSequenceBlockHash(6)],
        }),
        dp_rank: 3,
    }
}

fn clear() -> KvCacheEvent {
    KvCacheEvent { event_id: 9, data: KvCacheEventData::Cleared, dp_rank: 3 }
}

#[test]
fn identifiers_keep_all_their_bytes() {
    let mut seen = Vec::new();
    for i in 0..16 {
        let mut bytes = [0u8; 16];
        bytes[i] = 1;
        let id = CacheSemanticsId::new(bytes, IdentitySource::Explicit);
        assert_eq!(id.value, 1u128 << (8 * i));
        assert!(!seen.contains(&id));
        seen.push(id);
    }
}

#[test]
fn codes_give_their_keys_back() {
    let hash = ExternalSequenceBlockHash(77);
    let keys = vec![
        AgeKey { owner: ResidencyOwner::worker(WorkerWithDpRank::new(0, 0)), block_hash: hash },
        AgeKey { owner: ResidencyOwner::worker(WorkerWithDpRank::new(1, 2)), block_hash: hash },
        AgeKey { owner: ResidencyOwner::cache_owner(owner(0, 0, 0, 0)), block_hash: hash },
        AgeKey { owner: ResidencyOwner::cache_owner(owner(1, 2, 3, 4)), block_hash: hash },
        AgeKey { owner: ResidencyOwner::cache_owner(owner(2, 1, 3, 4)), block_hash: hash },
        AgeKey { owner: ResidencyOwner::cache_owner(owner(1, 2, 4, 3)), block_hash: hash },
    ];
    for (i, key) in keys.iter().enumerate() {
        assert_eq!(AgeKey::from_code(&key.code()), *key);
        for other in &keys[i + 1..] {
            assert_ne!(key.code(), other.code());
        }
    }
}

#[test]
fn worker_events_speak_for_the_reporting_rank() {
    let event = RouterEvent::with_storage_tier(4, removal(), StorageTier::Device);
    assert_eq!(
        event.residency_owner(),
        Ok(ResidencyOwner::Worker(WorkerWithDpRank { worker_id: 4, dp_rank: 3 }))
    );
    assert_eq!(event.resolved_residency_domain(), Ok(ResidencyDomain::Worker));
    assert_eq!(event.reset_scope(), Ok(None));
    assert_eq!(event.event.data.block_count(), 2);
}

#[test]
fn cache_owner_events_speak_for_the_state_source_whoever_reports() {
    let id = owner(1, 2, 3, 4);
    let one = RouterEvent::with_cache_owner(4, removal(), StorageTier::HostPinned, id);
    let other = RouterEvent::with_cache_owner(5, removal(), StorageTier::HostPinned, id);
    assert_eq!(one.residency_owner(), Ok(ResidencyOwner::CacheOwner(id)));
    assert_eq!(one.residency_owner(), other.residency_owner());
}

#[test]
fn cache_owner_events_on_the_device_tier_are_rejected() {
    let event = RouterEvent::with_cache_owner(4, clear(), StorageTier::Device, owner(1, 2, 3, 4));
    assert_eq!(event.resolved_residency_domain(), Err(ResidencyError::CacheOwnerOnDevice));
    assert_eq!(event.residency_owner(), Err(ResidencyError::CacheOwnerOnDevice));
    assert_eq!(event.reset_scope(), Err(ResidencyError::CacheOwnerOnDevice));
}

#[test]
fn clear_events_reach_their_domain_unless_they_declare_more() {
    let worker = RouterEvent::with_storage_tier(4, clear(), StorageTier::Device);
    assert_eq!(worker.reset_scope(), Ok(Some(ResetScope::Domain(ResidencyDomain::Worker))));
    let mut cache_owner =
        RouterEvent::with_cache_owner(4, clear(), StorageTier::Disk, owner(1, 2, 3, 4));
    assert_eq!(
        cache_owner.reset_scope(),
        Ok(Some(ResetScope::Domain(ResidencyDomain::CacheOwner)))
    );
    cache_owner.declared_reset = Some(ResetScope::All);
    assert_eq!(cache_owner.reset_scope(), Ok(Some(ResetScope::All)));
    assert_eq!(cache_owner.event.data.block_count(), 0);
}

#[test]
fn tiers_have_labels_of_their_own() {
    assert_eq!(tier_label(StorageTier::Device), "device");
    assert_eq!(tier_label(StorageTier::HostPinned), "host_pinned");
    assert_eq!(tier_label(StorageTier::Disk), "disk");
    assert_eq!(tier_label(StorageTier::External), "external");
}

#[test]
fn samples_are_counted_by_label() {
    let mut metrics = KvIndexerMetrics::new_unregistered();
    metrics.observe_block_lifetime("disk", 5);
    metrics.observe_block_lifetime("device", 6);
    metrics.observe_block_lifetime("disk", 7);
    assert_eq!(metrics.block_lifetime_sample_count("disk"), 2);
    assert_eq!(metrics.block_lifetime_sample_count("device"), 1);
    assert_eq!(metrics.block_lifetime_sample_count("external"), 0);
    let nanos: Vec<u128> = metrics.take_block_lifetimes().iter().map(|s| s.nanos).collect();
    assert_eq!(nanos, vec![5, 6, 7]);
}
