//! The two concurrent maps behind the trackers, as this crate uses them.
//!
//! A `DashMap` is changed through shared references. Here every change goes
//! through an exclusive one, so that what a map holds is a function of the
//! map, and no guard into a map outlives a call. All keys are integers or
//! tuples of integers and the hasher is `FxBuildHasher`, which has no state.

use vstd::prelude::*;
use dashmap::DashMap;
use rustc_hash::FxBuildHasher;
use std::collections::HashSet;
use crate::indexer::age_key::AgeCode;

verus! {

/// `dashmap::DashMap`, seen only through the functions below.
#[verifier::external_type_specification]
#[verifier::external_body]
#[verifier::reject_recursive_types(K)]
#[verifier::reject_recursive_types(V)]
#[verifier::reject_recursive_types(S)]
pub struct ExDashMap<K, V, S>(dashmap::DashMap<K, V, S>);

/// `rustc_hash::FxBuildHasher`, carried as a type argument.
#[verifier::external_type_specification]
#[verifier::external_body]
pub struct ExFxBuildHasher(rustc_hash::FxBuildHasher);

/// Insertion times by age code, in nanoseconds on the tracker's clock.
pub type AgeMap = DashMap<AgeCode, u128, FxBuildHasher>;

/// First-seen times by block hash, in nanoseconds on the tracker's clock.
pub type DemandMap = DashMap<u64, u128, FxBuildHasher>;

/// The entries of an `AgeMap`.
pub uninterp spec fn age_entries(map: AgeMap) -> Map<AgeCode, u128>;

/// The entries of a `DemandMap`.
pub uninterp spec fn demand_entries(map: DemandMap) -> Map<u64, u128>;

/// `DashMap::default`: a map without entries.
#[verifier::external_body]
pub(crate) fn age_map_default() -> (fresh: AgeMap)
    ensures
        age_entries(fresh).dom() == Set::<AgeCode>::empty(),
{
    DashMap::default()
}

/// `DashMap::entry` and `Entry::or_insert`: the entry under `code` stays as
/// it is where there is one, and is `time` where there was none. Nothing else
/// changes.
#[verifier::external_body]
pub(crate) fn age_map_or_insert(map: &mut AgeMap, code: AgeCode, time: u128)
    ensures
        age_entries(*final(map)) == (if age_entries(*old(map)).contains_key(code) {
            age_entries(*old(map))
        } else {
            age_entries(*old(map)).insert(code, time)
        }),
{
    map.entry(code).or_insert(time);
}

/// `DashMap::remove`: takes the entry under `code` out and returns its value,
/// or returns nothing where there is no such entry. Nothing else changes.
#[verifier::external_body]
pub(crate) fn age_map_remove(map: &mut AgeMap, code: &AgeCode) -> (removed: Option<u128>)
    ensures
        age_entries(*final(map)) == age_entries(*old(map)).remove(*code),
        removed == (if age_entries(*old(map)).contains_key(*code) {
            Some(age_entries(*old(map))[*code])
        } else {
            None
        }),
{
    map.remove(code).map(|entry| entry.1)
}

/// `DashMap::retain`: an entry stays, with its value, where `keep` returns
/// `true` for it, and goes where `keep` returns `false`.
#[verifier::external_body]
pub(crate) fn age_map_retain<F: Fn(&AgeCode, &u128) -> bool>(map: &mut AgeMap, keep: F)
    requires
        forall|code: AgeCode, time: u128| #[trigger] keep.requires((&code, &time)),
    ensures
        forall|code: AgeCode| #[trigger]
            age_entries(*final(map)).contains_key(code) ==> age_entries(*old(map)).contains_key(
                code,
            ) && age_entries(*final(map))[code] == age_entries(*old(map))[code] && keep.ensures(
                (&code, &age_entries(*old(map))[code]),
                true,
            ),
        forall|code: AgeCode| #[trigger]
            age_entries(*old(map)).contains_key(code) && !age_entries(*final(map)).contains_key(
                code,
            ) ==> keep.ensures((&code, &age_entries(*old(map))[code]), false),
{
    map.retain(|code, time| keep(code, time));
}

/// `DashMap::get`: the value under `code`, where there is one.
#[verifier::external_body]
pub(crate) fn age_map_get(map: &AgeMap, code: &AgeCode) -> (value: Option<u128>)
    ensures
        value == (if age_entries(*map).contains_key(*code) {
            Some(age_entries(*map)[*code])
        } else {
            None
        }),
{
    map.get(code).map(|entry| *entry.value())
}

/// `DashMap::len`: the number of entries.
#[verifier::external_body]
pub(crate) fn age_map_len(map: &AgeMap) -> (len: usize)
    ensures
        len == age_entries(*map).len(),
{
    map.len()
}

/// `DashMap::iter`: every entry once, in an order that is not specified.
#[verifier::external_body]
pub(crate) fn age_map_iter(map: &AgeMap) -> (entries: Vec<(AgeCode, u128)>)
    ensures
        forall|i: int, j: int|
            0 <= i < j < entries@.len() ==> (#[trigger] entries@[i]).0 != (#[trigger] entries@[j]).0,
        forall|i: int|
            0 <= i < entries@.len() ==> age_entries(*map).contains_key((#[trigger] entries@[i]).0)
                && age_entries(*map)[entries@[i].0] == entries@[i].1,
        forall|code: AgeCode| #[trigger]
            age_entries(*map).contains_key(code) ==> entries@.contains(
                (code, age_entries(*map)[code]),
            ),
{
    map.iter().map(|entry| (*entry.key(), *entry.value())).collect()
}

/// `DashMap::default`: a map without entries.
#[verifier::external_body]
pub(crate) fn demand_map_default() -> (fresh: DemandMap)
    ensures
        demand_entries(fresh).dom() == Set::<u64>::empty(),
{
    DashMap::default()
}

/// `DashMap::entry` and `Entry::or_insert`: the entry under `hash` stays as
/// it is where there is one, and is `time` where there was none. Nothing else
/// changes.
#[verifier::external_body]
pub(crate) fn demand_map_or_insert(map: &mut DemandMap, hash: u64, time: u128)
    ensures
        demand_entries(*final(map)) == (if demand_entries(*old(map)).contains_key(hash) {
            demand_entries(*old(map))
        } else {
            demand_entries(*old(map)).insert(hash, time)
        }),
{
    map.entry(hash).or_insert(time);
}

/// `DashMap::retain`: an entry stays, with its value, where `keep` returns
/// `true` for it, and goes where `keep` returns `false`.
#[verifier::external_body]
pub(crate) fn demand_map_retain<F: Fn(&u64, &u128) -> bool>(map: &mut DemandMap, keep: F)
    requires
        forall|hash: u64, time: u128| #[trigger] keep.requires((&hash, &time)),
    ensures
        forall|hash: u64| #[trigger]
            demand_entries(*final(map)).contains_key(hash) ==> demand_entries(
                *old(map),
            ).contains_key(hash) && demand_entries(*final(map))[hash] == demand_entries(
                *old(map),
            )[hash] && keep.ensures((&hash, &demand_entries(*old(map))[hash]), true),
        forall|hash: u64| #[trigger]
            demand_entries(*old(map)).contains_key(hash) && !demand_entries(
                *final(map),
            ).contains_key(hash) ==> keep.ensures(
                (&hash, &demand_entries(*old(map))[hash]),
                false,
            ),
{
    map.retain(|hash, time| keep(hash, time));
}

/// `DashMap::len`: the number of entries.
#[verifier::external_body]
pub(crate) fn demand_map_len(map: &DemandMap) -> (len: usize)
    ensures
        len == demand_entries(*map).len(),
{
    map.len()
}

/// `HashSet::insert` over `FxBuildHasher`, a deterministic hasher: adds
/// `hash` to the set.
#[verifier::external_body]
pub(crate) fn hash_set_insert(set: &mut HashSet<u64, FxBuildHasher>, hash: u64)
    ensures
        final(set)@ == old(set)@.insert(hash),
{
    set.insert(hash);
}

} // verus!
