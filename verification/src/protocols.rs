//! The events a router receives about the blocks its workers hold, and the
//! owner each event speaks for.

use vstd::prelude::*;
use crate::identity::CacheOwnerId;

verus! {

pub type WorkerId = u64;

pub type DpRank = u32;

/// Content hash of a block in the context of the blocks before it.
#[derive(Clone, Copy, Debug, PartialEq, Eq, Hash, Structural)]
pub struct ExternalSequenceBlockHash(pub u64);

/// Hash of the tokens of one block alone.
#[derive(Clone, Copy, Debug, PartialEq, Eq, Hash, Structural)]
pub struct LocalBlockHash(pub u64);

/// One data-parallel rank of a worker.
#[derive(Clone, Copy, Debug, PartialEq, Eq, Hash, Structural)]
pub struct WorkerWithDpRank {
    pub worker_id: WorkerId,
    pub dp_rank: DpRank,
}

impl WorkerWithDpRank {
    pub fn new(worker_id: WorkerId, dp_rank: DpRank) -> (worker: Self)
        ensures
            worker == (WorkerWithDpRank { worker_id, dp_rank }),
    {
        WorkerWithDpRank { worker_id, dp_rank }
    }
}

/// The kind of memory a block is held in.
#[derive(Clone, Copy, Debug, PartialEq, Eq, Hash, Structural)]
pub enum StorageTier {
    Device,
    HostPinned,
    Disk,
    External,
}

/// One block of a store event.
#[derive(Clone, Copy, Debug, PartialEq, Eq, Structural)]
pub struct KvCacheStoredBlockData {
    pub block_hash: ExternalSequenceBlockHash,
    pub tokens_hash: LocalBlockHash,
}

/// Blocks that were stored, in sequence order.
#[derive(Clone, Debug)]
pub struct KvCacheStoreData {
    pub parent_hash: Option<ExternalSequenceBlockHash>,
    pub start_position: Option<u32>,
    pub blocks: Vec<KvCacheStoredBlockData>,
}

/// Blocks that were removed.
#[derive(Clone, Debug)]
pub struct KvCacheRemoveData {
    pub block_hashes: Vec<ExternalSequenceBlockHash>,
}

/// What happened to a cache.
#[derive(Clone, Debug)]
pub enum KvCacheEventData {
    Stored(KvCacheStoreData),
    Removed(KvCacheRemoveData),
    Cleared,
}

/// One event of one data-parallel rank.
#[derive(Clone, Debug)]
pub struct KvCacheEvent {
    pub event_id: u64,
    pub data: KvCacheEventData,
    pub dp_rank: DpRank,
}

impl KvCacheEventData {
    /// The hashes of the blocks the event names, in the event's order.
    pub open spec fn hashes(&self) -> Seq<ExternalSequenceBlockHash> {
        match *self {
            KvCacheEventData::Stored(store) => store.blocks@.map_values(
                |block: KvCacheStoredBlockData| block.block_hash,
            ),
            KvCacheEventData::Removed(remove) => remove.block_hashes@,
            KvCacheEventData::Cleared => Seq::empty(),
        }
    }

    /// How many blocks the event names.
    pub fn block_count(&self) -> (count: usize)
        ensures
            count == self.hashes().len(),
    {
        match self {
            KvCacheEventData::Stored(store) => store.blocks.len(),
            KvCacheEventData::Removed(remove) => remove.block_hashes.len(),
            KvCacheEventData::Cleared => 0,
        }
    }
}

/// Whether blocks belong to the worker that reports them or to a cache owner
/// that outlives it.
#[derive(Clone, Copy, Debug, PartialEq, Eq, Hash, Structural)]
pub enum ResidencyDomain {
    Worker,
    CacheOwner,
}

/// The identity a resident block is filed under.
#[derive(Clone, Copy, Debug, PartialEq, Eq, Hash, Structural)]
pub enum ResidencyOwner {
    Worker(WorkerWithDpRank),
    CacheOwner(CacheOwnerId),
}

impl ResidencyOwner {
    pub fn worker(worker: WorkerWithDpRank) -> (owner: Self)
        ensures
            owner == ResidencyOwner::Worker(worker),
    {
        ResidencyOwner::Worker(worker)
    }

    pub fn cache_owner(id: CacheOwnerId) -> (owner: Self)
        ensures
            owner == ResidencyOwner::CacheOwner(id),
    {
        ResidencyOwner::CacheOwner(id)
    }
}

/// How far a clear event reaches.
#[derive(Clone, Copy, Debug, PartialEq, Eq, Hash, Structural)]
pub enum ResetScope {
    All,
    Domain(ResidencyDomain),
}

/// Why an event speaks for no owner.
#[derive(Clone, Copy, Debug, PartialEq, Eq, Hash, Structural)]
pub enum ResidencyError {
    /// Device memory belongs to its worker, never to a cache owner.
    CacheOwnerOnDevice,
    /// The event is in the cache-owner domain and names no cache owner.
    MissingStateSource,
}

/// An event together with where it comes from.
#[derive(Clone, Debug)]
pub struct RouterEvent {
    /// The worker that reports the event. For a cache owner this is whichever
    /// worker holds the attachment now.
    pub worker_id: WorkerId,
    pub storage_tier: StorageTier,
    pub event: KvCacheEvent,
    /// The domain the event is declared in.
    pub residency_domain: ResidencyDomain,
    /// The cache owner whose state the event describes, if there is one.
    pub state_source: Option<CacheOwnerId>,
    /// The reach of a clear event, where it is not just its own domain.
    pub declared_reset: Option<ResetScope>,
}

impl RouterEvent {
    /// An event about blocks that belong to the reporting worker.
    pub fn with_storage_tier(
        worker_id: WorkerId,
        event: KvCacheEvent,
        storage_tier: StorageTier,
    ) -> (router_event: Self)
        ensures
            router_event == (RouterEvent {
                worker_id,
                storage_tier,
                event,
                residency_domain: ResidencyDomain::Worker,
                state_source: None,
                declared_reset: None,
            }),
    {
        RouterEvent {
            worker_id,
            storage_tier,
            event,
            residency_domain: ResidencyDomain::Worker,
            state_source: None,
            declared_reset: None,
        }
    }

    /// An event about blocks that belong to `cache_owner`, reported by
    /// whichever worker holds the attachment.
    pub fn with_cache_owner(
        worker_id: WorkerId,
        event: KvCacheEvent,
        storage_tier: StorageTier,
        cache_owner: CacheOwnerId,
    ) -> (router_event: Self)
        ensures
            router_event == (RouterEvent {
                worker_id,
                storage_tier,
                event,
                residency_domain: ResidencyDomain::CacheOwner,
                state_source: Some(cache_owner),
                declared_reset: None,
            }),
    {
        RouterEvent {
            worker_id,
            storage_tier,
            event,
            residency_domain: ResidencyDomain::CacheOwner,
            state_source: Some(cache_owner),
            declared_reset: None,
        }
    }

    /// The worker rank that reports the event.
    pub open spec fn spec_reporting_worker(&self) -> WorkerWithDpRank {
        WorkerWithDpRank { worker_id: self.worker_id, dp_rank: self.event.dp_rank }
    }

    /// The worker rank that reports the event.
    pub fn reporting_worker(&self) -> (worker: WorkerWithDpRank)
        ensures
            worker == self.spec_reporting_worker(),
    {
        WorkerWithDpRank::new(self.worker_id, self.event.dp_rank)
    }

    /// The domain an event resolves to: its declared one, except that nothing
    /// on the device tier belongs to a cache owner.
    pub open spec fn spec_resolved_residency_domain(&self) -> Result<
        ResidencyDomain,
        ResidencyError,
    > {
        if self.residency_domain is CacheOwner && self.storage_tier is Device {
            Err(ResidencyError::CacheOwnerOnDevice)
        } else {
            Ok(self.residency_domain)
        }
    }

    pub fn resolved_residency_domain(&self) -> (domain: Result<ResidencyDomain, ResidencyError>)
        ensures
            domain == self.spec_resolved_residency_domain(),
    {
        if self.residency_domain == ResidencyDomain::CacheOwner && self.storage_tier
            == StorageTier::Device {
            Err(ResidencyError::CacheOwnerOnDevice)
        } else {
            Ok(self.residency_domain)
        }
    }

    /// The owner an event speaks for: the reporting worker rank in the worker
    /// domain, the state source in the cache-owner domain.
    pub open spec fn spec_residency_owner(&self) -> Result<ResidencyOwner, ResidencyError> {
        match self.spec_resolved_residency_domain() {
            Err(error) => Err(error),
            Ok(ResidencyDomain::Worker) => Ok(
                ResidencyOwner::Worker(self.spec_reporting_worker()),
            ),
            Ok(ResidencyDomain::CacheOwner) => match self.state_source {
                Some(id) => Ok(ResidencyOwner::CacheOwner(id)),
                None => Err(ResidencyError::MissingStateSource),
            },
        }
    }

    pub fn residency_owner(&self) -> (owner: Result<ResidencyOwner, ResidencyError>)
        ensures
            owner == self.spec_residency_owner(),
    {
        match self.resolved_residency_domain() {
            Err(error) => Err(error),
            Ok(ResidencyDomain::Worker) => Ok(ResidencyOwner::worker(self.reporting_worker())),
            Ok(ResidencyDomain::CacheOwner) => match self.state_source {
                Some(id) => Ok(ResidencyOwner::cache_owner(id)),
                None => Err(ResidencyError::MissingStateSource),
            },
        }
    }

    /// The reach of a clear event: what it declares, else the domain it
    /// resolves to. Other events reset nothing.
    pub open spec fn spec_reset_scope(&self) -> Result<Option<ResetScope>, ResidencyError> {
        match self.event.data {
            KvCacheEventData::Cleared => match self.declared_reset {
                Some(scope) => Ok(Some(scope)),
                None => match self.spec_resolved_residency_domain() {
                    Err(error) => Err(error),
                    Ok(domain) => Ok(Some(ResetScope::Domain(domain))),
                },
            },
            _ => Ok(None),
        }
    }

    pub fn reset_scope(&self) -> (scope: Result<Option<ResetScope>, ResidencyError>)
        ensures
            scope == self.spec_reset_scope(),
    {
        match self.event.data {
            KvCacheEventData::Cleared => match self.declared_reset {
                Some(scope) => Ok(Some(scope)),
                None => match self.resolved_residency_domain() {
                    Err(error) => Err(error),
                    Ok(domain) => Ok(Some(ResetScope::Domain(domain))),
                },
            },
            _ => Ok(None),
        }
    }
}

/// A store names its blocks, a removal the blocks it removes, a clear none: as
/// many as there are, one after the other.
pub proof fn lemma_event_names_its_blocks(data: KvCacheEventData)
    ensures
        match data {
            KvCacheEventData::Stored(store) => {
                &&& data.hashes().len() == store.blocks@.len()
                &&& forall|i: int|
                    0 <= i < store.blocks@.len() ==> #[trigger] data.hashes()[i]
                        == store.blocks@[i].block_hash
            },
            KvCacheEventData::Removed(remove) => data.hashes() == remove.block_hashes@,
            KvCacheEventData::Cleared => data.hashes().len() == 0,
        },
{
}

/// An event is filed under the rank that reports it where its domain is the
/// worker's, and under its state source where the domain is the cache owner's
/// and the tier is not the device. In the cache-owner domain it is filed under
/// nobody on the device, or where it has no state source.
pub proof fn lemma_owner_by_domain(event: RouterEvent)
    ensures
        event.spec_reporting_worker().worker_id == event.worker_id,
        event.spec_reporting_worker().dp_rank == event.event.dp_rank,
        event.residency_domain is Worker ==> {
            &&& event.spec_resolved_residency_domain() == Ok::<ResidencyDomain, ResidencyError>(
                ResidencyDomain::Worker,
            )
            &&& event.spec_residency_owner() == Ok::<ResidencyOwner, ResidencyError>(
                ResidencyOwner::Worker(
                    WorkerWithDpRank { worker_id: event.worker_id, dp_rank: event.event.dp_rank },
                ),
            )
        },
        event.residency_domain is CacheOwner && event.storage_tier is Device ==> {
            &&& event.spec_resolved_residency_domain() == Err::<ResidencyDomain, ResidencyError>(
                ResidencyError::CacheOwnerOnDevice,
            )
            &&& event.spec_residency_owner() == Err::<ResidencyOwner, ResidencyError>(
                ResidencyError::CacheOwnerOnDevice,
            )
        },
        event.residency_domain is CacheOwner && !(event.storage_tier is Device) ==> {
            &&& event.spec_resolved_residency_domain() == Ok::<ResidencyDomain, ResidencyError>(
                ResidencyDomain::CacheOwner,
            )
            &&& event.state_source matches Some(id) ==> event.spec_residency_owner() == Ok::<
                ResidencyOwner,
                ResidencyError,
            >(ResidencyOwner::CacheOwner(id))
            &&& event.state_source is None ==> event.spec_residency_owner() == Err::<
                ResidencyOwner,
                ResidencyError,
            >(ResidencyError::MissingStateSource)
        },
{
}

/// Only clear events reset anything. A clear event reaches as far as it
/// declares, and where it declares nothing it reaches its own domain, which on
/// the device is never the cache owner's.
pub proof fn lemma_reset_by_declaration(event: RouterEvent)
    ensures
        !(event.event.data is Cleared) ==> event.spec_reset_scope() == Ok::<
            Option<ResetScope>,
            ResidencyError,
        >(None),
        event.event.data is Cleared ==> {
            &&& event.declared_reset is Some ==> event.spec_reset_scope() == Ok::<
                Option<ResetScope>,
                ResidencyError,
            >(event.declared_reset)
            &&& event.declared_reset is None && event.residency_domain is CacheOwner
                && event.storage_tier is Device ==> event.spec_reset_scope() == Err::<
                Option<ResetScope>,
                ResidencyError,
            >(ResidencyError::CacheOwnerOnDevice)
            &&& event.declared_reset is None && !(event.residency_domain is CacheOwner
                && event.storage_tier is Device) ==> event.spec_reset_scope() == Ok::<
                Option<ResetScope>,
                ResidencyError,
            >(Some(ResetScope::Domain(event.residency_domain)))
        },
{
}

} // verus!
