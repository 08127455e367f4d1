//! The key of an age entry, and the tuple of integers that stands for it in
//! the concurrent map.

use vstd::prelude::*;
use crate::identity::{
    CacheOwnerId, CacheSemanticsId, DcId, IdentitySource, IndexerDomainId, PoolId, RoutingScopeId,
    StableDpSlotId,
};
use crate::protocols::{ExternalSequenceBlockHash, ResidencyOwner, WorkerWithDpRank};

verus! {

/// One resident copy of a block: the block and the owner that holds it.
#[derive(Clone, Copy, Debug, PartialEq, Eq, Hash, Structural)]
pub struct AgeKey {
    pub owner: ResidencyOwner,
    pub block_hash: ExternalSequenceBlockHash,
}

/// An `AgeKey` as integers: the block hash, which kind of owner it is, then
/// the worker and rank of a worker owner, then the identity of a cache owner.
/// The part of the other kind is zero.
pub type AgeCode = (u64, bool, u64, u32, u128, u128, u64, u128);

impl AgeKey {
    /// The integers that stand for this key.
    pub open spec fn spec_code(self) -> AgeCode {
        match self.owner {
            ResidencyOwner::Worker(worker) => (
                self.block_hash.0,
                true,
                worker.worker_id,
                worker.dp_rank,
                0,
                0,
                0,
                0,
            ),
            ResidencyOwner::CacheOwner(id) => (
                self.block_hash.0,
                false,
                0,
                0,
                id.pool.domain.semantics.value,
                id.pool.domain.scope.value,
                id.pool.dc.value,
                id.slot.value,
            ),
        }
    }

    pub fn code(&self) -> (code: AgeCode)
        ensures
            code == self.spec_code(),
    {
        match self.owner {
            ResidencyOwner::Worker(worker) => (
                self.block_hash.0,
                true,
                worker.worker_id,
                worker.dp_rank,
                0,
                0,
                0,
                0,
            ),
            ResidencyOwner::CacheOwner(id) => (
                self.block_hash.0,
                false,
                0,
                0,
                id.pool.domain.semantics.value,
                id.pool.domain.scope.value,
                id.pool.dc.value,
                id.slot.value,
            ),
        }
    }

    /// The key that a code stands for.
    pub open spec fn spec_from_code(code: AgeCode) -> AgeKey {
        AgeKey {
            owner: if code.1 {
                ResidencyOwner::Worker(WorkerWithDpRank { worker_id: code.2, dp_rank: code.3 })
            } else {
                ResidencyOwner::CacheOwner(
                    CacheOwnerId {
                        pool: PoolId {
                            domain: IndexerDomainId {
                                semantics: CacheSemanticsId {
                                    value: code.4,
                                    source: IdentitySource::Explicit,
                                },
                                scope: RoutingScopeId {
                                    value: code.5,
                                    source: IdentitySource::Explicit,
                                },
                            },
                            dc: DcId { value: code.6 },
                        },
                        slot: StableDpSlotId { value: code.7, source: IdentitySource::Explicit },
                    },
                )
            },
            block_hash: ExternalSequenceBlockHash(code.0),
        }
    }

    pub fn from_code(code: &AgeCode) -> (key: AgeKey)
        ensures
            key == AgeKey::spec_from_code(*code),
    {
        AgeKey {
            owner: if code.1 {
                ResidencyOwner::Worker(WorkerWithDpRank { worker_id: code.2, dp_rank: code.3 })
            } else {
                ResidencyOwner::CacheOwner(
                    CacheOwnerId {
                        pool: PoolId {
                            domain: IndexerDomainId {
                                semantics: CacheSemanticsId {
                                    value: code.4,
                                    source: IdentitySource::Explicit,
                                },
                                scope: RoutingScopeId {
                                    value: code.5,
                                    source: IdentitySource::Explicit,
                                },
                            },
                            dc: DcId { value: code.6 },
                        },
                        slot: StableDpSlotId { value: code.7, source: IdentitySource::Explicit },
                    },
                )
            },
            block_hash: ExternalSequenceBlockHash(code.0),
        }
    }
}

/// Decoding gives back the key that was encoded, so no two keys share a code.
pub broadcast proof fn lemma_code_round_trip(key: AgeKey)
    ensures
        AgeKey::spec_from_code(#[trigger] key.spec_code()) == key,
{
}

} // verus!
