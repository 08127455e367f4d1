//! Stable identities of cache owners.
//!
//! A cache owner keeps its identity while the worker that currently serves it
//! comes and goes, so an identity here never mentions a worker. Identifiers
//! are given as sixteen bytes and held as one integer each.

use vstd::prelude::*;
use vstd::bytes::u128_from_le_bytes;

verus! {

/// Where an identity comes from.
#[derive(Clone, Copy, Debug, PartialEq, Eq, Hash, Structural)]
#[non_exhaustive]
pub enum IdentitySource {
    /// The identity was configured explicitly.
    Explicit,
}

/// The integer that holds a sixteen-byte identifier.
pub open spec fn packed(bytes: Seq<u8>) -> u128 {
    vstd::bytes::spec_u128_from_le_bytes(bytes)
}

/// Packs a sixteen-byte identifier into one integer.
fn pack(bytes: [u8; 16]) -> (value: u128)
    ensures
        value == packed(bytes@),
{
    u128_from_le_bytes(bytes.as_slice())
}

/// Two different sixteen-byte identifiers never pack to the same integer.
pub proof fn lemma_packed_is_injective(a: Seq<u8>, b: Seq<u8>)
    requires
        a.len() == 16,
        b.len() == 16,
    ensures
        packed(a) == packed(b) <==> a == b,
{
    vstd::bytes::lemma_auto_spec_u128_to_from_le_bytes();
    if packed(a) == packed(b) {
        assert(vstd::bytes::spec_u128_to_le_bytes(packed(a)) == a);
        assert(vstd::bytes::spec_u128_to_le_bytes(packed(b)) == b);
    }
}

/// The sixteen bytes can be read back from the integer, the lowest first.
pub proof fn lemma_packed_holds_the_bytes(bytes: Seq<u8>)
    requires
        bytes.len() == 16,
    ensures
        vstd::bytes::spec_u128_to_le_bytes(packed(bytes)) == bytes,
{
    vstd::bytes::lemma_auto_spec_u128_to_from_le_bytes();
}

/// Identifies what makes cached blocks interchangeable.
#[derive(Clone, Copy, Debug, PartialEq, Eq, Hash, Structural)]
pub struct CacheSemanticsId {
    pub value: u128,
    pub source: IdentitySource,
}

impl CacheSemanticsId {
    pub fn new(bytes: [u8; 16], source: IdentitySource) -> (id: Self)
        ensures
            id == (CacheSemanticsId { value: packed(bytes@), source }),
    {
        CacheSemanticsId { value: pack(bytes), source }
    }
}

/// Identifies the scope within which requests are routed.
#[derive(Clone, Copy, Debug, PartialEq, Eq, Hash, Structural)]
pub struct RoutingScopeId {
    pub value: u128,
    pub source: IdentitySource,
}

impl RoutingScopeId {
    pub fn new(bytes: [u8; 16], source: IdentitySource) -> (id: Self)
        ensures
            id == (RoutingScopeId { value: packed(bytes@), source }),
    {
        RoutingScopeId { value: pack(bytes), source }
    }
}

/// Identifies a data-parallel slot that outlives the worker filling it.
#[derive(Clone, Copy, Debug, PartialEq, Eq, Hash, Structural)]
pub struct StableDpSlotId {
    pub value: u128,
    pub source: IdentitySource,
}

impl StableDpSlotId {
    pub fn new(bytes: [u8; 16], source: IdentitySource) -> (id: Self)
        ensures
            id == (StableDpSlotId { value: packed(bytes@), source }),
    {
        StableDpSlotId { value: pack(bytes), source }
    }
}

/// Identifies a data center.
#[derive(Clone, Copy, Debug, PartialEq, Eq, Hash, Structural)]
pub struct DcId {
    pub value: u64,
}

impl DcId {
    pub fn new(value: u64) -> (id: Self)
        ensures
            id == (DcId { value }),
    {
        DcId { value }
    }
}

/// The domain an indexer serves: interchangeable blocks within one routing
/// scope.
#[derive(Clone, Copy, Debug, PartialEq, Eq, Hash, Structural)]
pub struct IndexerDomainId {
    pub semantics: CacheSemanticsId,
    pub scope: RoutingScopeId,
}

impl IndexerDomainId {
    pub fn new(semantics: CacheSemanticsId, scope: RoutingScopeId) -> (id: Self)
        ensures
            id == (IndexerDomainId { semantics, scope }),
    {
        IndexerDomainId { semantics, scope }
    }
}

/// The part of an indexer domain that lives in one data center.
#[derive(Clone, Copy, Debug, PartialEq, Eq, Hash, Structural)]
pub struct PoolId {
    pub domain: IndexerDomainId,
    pub dc: DcId,
}

impl PoolId {
    pub fn new(domain: IndexerDomainId, dc: DcId) -> (id: Self)
        ensures
            id == (PoolId { domain, dc }),
    {
        PoolId { domain, dc }
    }
}

/// The owner of cached blocks that are shared across workers.
#[derive(Clone, Copy, Debug, PartialEq, Eq, Hash, Structural)]
pub struct CacheOwnerId {
    pub pool: PoolId,
    pub slot: StableDpSlotId,
}

impl CacheOwnerId {
    pub fn new(pool: PoolId, slot: StableDpSlotId) -> (id: Self)
        ensures
            id == (CacheOwnerId { pool, slot }),
    {
        CacheOwnerId { pool, slot }
    }
}

} // verus!
