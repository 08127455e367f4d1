//! How long blocks stay resident, and how old the resident blocks are.
//!
//! An `AgeTracker` watches the events of one tier and remembers when each
//! resident copy of a block was first observed as stored. It sees events, not
//! the index they are applied to: where the index rejects an event, the two
//! drift apart.
//!
//! Entries are filed under the owner an event speaks for, not under the worker
//! that reports it, so that a block of a cache owner is found again after its
//! attachment has moved to another worker.

use vstd::prelude::*;
use rustc_hash::FxBuildHasher;
use std::collections::HashSet;
use std::time::Instant;
use crate::indexer::age_key::{lemma_code_round_trip, AgeCode, AgeKey};
use crate::indexer::age_laws::lemma_percentiles_are_ages;
use crate::indexer::age_model::{
    after_clear, after_event, after_remove, after_store, counts_by_worker, event_lifetimes, held_by,
    key_of, lemma_after_remove_step, lemma_after_store_step, lifetimes, resident_ages,
    resident_hashes,
};
use crate::indexer::age_stats::{age_stats, lemma_stats_ignore_order, spec_age_stats, AgeStats};
use crate::indexer::clock::{
    is_shown, latest_of, lemma_latest_of, never_goes_back, spec_time_since, time_since, Clock,
};
use crate::indexer::concurrent_maps::{
    age_entries, age_map_default, age_map_get, age_map_iter, age_map_len, age_map_or_insert,
    age_map_remove, age_map_retain, hash_set_insert, AgeMap,
};
use crate::indexer::listing::{
    lemma_counts_step, lemma_hashes_step, lemma_listed_ages, lemma_listed_all, lemma_listed_prefix,
    listed, lists,
};
use crate::indexer::metrics::{samples, spec_tier_label, tier_label, KvIndexerMetrics};
use crate::indexer::worker_counts::WorkerBlockCounts;
use crate::protocols::{
    ExternalSequenceBlockHash, KvCacheEventData, KvCacheStoredBlockData, ResetScope,
    ResidencyDomain, ResidencyError, ResidencyOwner, RouterEvent, StorageTier, WorkerWithDpRank,
};

verus! {

broadcast use lemma_code_round_trip;

/// The resident copies that the entries of an `AgeMap` stand for.
spec fn decoded(entries: Map<AgeCode, u128>) -> Map<AgeKey, u128> {
    Map::new(
        |key: AgeKey| entries.contains_key(key.spec_code()),
        |key: AgeKey| entries[key.spec_code()],
    )
}

/// Whether `candidate` is the owner `owner`.
fn is_owner(candidate: Option<ResidencyOwner>, owner: ResidencyOwner) -> (same: bool)
    ensures
        same == (candidate == Some(owner)),
{
    match candidate {
        Some(other) => other == owner,
        None => false,
    }
}

/// The owners given.
spec fn either(worker: Option<ResidencyOwner>, cache_owner: Option<ResidencyOwner>) -> Set<
    ResidencyOwner,
> {
    Set::new(|owner: ResidencyOwner| worker == Some(owner) || cache_owner == Some(owner))
}

/// Whether the copy behind `code` belongs to neither of the owners given.
fn is_kept(
    code: &AgeCode,
    worker: Option<ResidencyOwner>,
    cache_owner: Option<ResidencyOwner>,
) -> (kept: bool)
    ensures
        kept == !either(worker, cache_owner).contains(AgeKey::spec_from_code(*code).owner),
{
    let owner = AgeKey::from_code(code).owner;
    !is_owner(worker, owner) && !is_owner(cache_owner, owner)
}

/// Records lifetimes that ended on one tier.
fn record(recorder: &mut KvIndexerMetrics, tier: StorageTier, ended: &Vec<u128>)
    ensures
        final(recorder)@ == old(recorder)@ + samples(tier, ended@),
{
    let label = tier_label(tier);
    let mut i: usize = 0;
    while i < ended.len()
        invariant
            i <= ended@.len(),
            label@ == spec_tier_label(tier),
            recorder@ == old(recorder)@ + samples(tier, ended@).take(i as int),
        decreases ended.len() - i,
    {
        recorder.observe_block_lifetime(label, ended[i]);
        i += 1;
    }
}

/// When each resident copy of a block was first observed as stored. The view
/// maps the resident copies to those times, in nanoseconds on the tracker's
/// clock.
pub struct AgeTracker {
    clock: Clock,
    inserted_at: AgeMap,
}

impl View for AgeTracker {
    type V = Map<AgeKey, u128>;

    closed spec fn view(&self) -> Map<AgeKey, u128> {
        decoded(age_entries(self.inserted_at))
    }
}

impl Default for AgeTracker {
    fn default() -> (tracker: Self)
        ensures
            tracker.wf(),
            tracker@ == Map::<AgeKey, u128>::empty(),
            tracker.latest_reading() == 0,
    {
        let tracker = AgeTracker { clock: Clock::start(), inserted_at: age_map_default() };
        assert(tracker@ =~= Map::<AgeKey, u128>::empty());
        tracker
    }
}

impl AgeTracker {
    /// The map is finite, every entry in it stands for a key, and no entry is
    /// of a time that the clock has not been told of.
    pub closed spec fn wf(&self) -> bool {
        &&& age_entries(self.inserted_at).dom().finite()
        &&& forall|code: AgeCode| #[trigger]
            age_entries(self.inserted_at).contains_key(code) ==> AgeKey::spec_from_code(
                code,
            ).spec_code() == code && age_entries(self.inserted_at)[code] <= self.clock.latest()
    }

    /// The latest time at which the tracker has observed a block.
    pub closed spec fn latest_reading(&self) -> u128 {
        self.clock.latest()
    }

    /// When the tracker's clock was started.
    pub closed spec fn started(&self) -> Instant {
        self.clock.started()
    }

    /// A tracker that has seen nothing.
    pub fn new() -> (tracker: Self)
        ensures
            tracker.wf(),
            tracker@ == Map::<AgeKey, u128>::empty(),
            tracker.latest_reading() == 0,
    {
        AgeTracker::default()
    }

    /// Observes one copy as stored. A copy that is tracked keeps its time.
    fn track(&mut self, key: AgeKey, time: u128)
        requires
            old(self).wf(),
            time <= old(self).latest_reading(),
        ensures
            final(self).wf(),
            final(self).latest_reading() == old(self).latest_reading(),
            final(self).started() == old(self).started(),
            final(self)@ == if old(self)@.contains_key(key) {
                old(self)@
            } else {
                old(self)@.insert(key, time)
            },
    {
        age_map_or_insert(&mut self.inserted_at, key.code(), time);
        proof {
            if old(self)@.contains_key(key) {
                assert(self@ =~= old(self)@);
            } else {
                assert(self@ =~= old(self)@.insert(key, time));
            }
        }
    }

    /// Stops tracking one copy and returns its time.
    fn untrack(&mut self, key: AgeKey) -> (time: Option<u128>)
        requires
            old(self).wf(),
        ensures
            final(self).wf(),
            final(self).latest_reading() == old(self).latest_reading(),
            final(self).started() == old(self).started(),
            final(self)@ == old(self)@.remove(key),
            time == if old(self)@.contains_key(key) {
                Some(old(self)@[key])
            } else {
                None
            },
    {
        let code = key.code();
        let time = age_map_remove(&mut self.inserted_at, &code);
        assert(self@ =~= old(self)@.remove(key));
        time
    }

    /// Stops tracking every copy of the owners given.
    fn purge(&mut self, worker: Option<ResidencyOwner>, cache_owner: Option<ResidencyOwner>)
        requires
            old(self).wf(),
        ensures
            final(self).wf(),
            final(self).latest_reading() == old(self).latest_reading(),
            final(self).started() == old(self).started(),
            final(self)@ == after_clear(old(self)@, either(worker, cache_owner)),
    {
        let keep = |code: &AgeCode, time: &u128| -> (kept: bool)
            ensures kept == !either(worker, cache_owner).contains(AgeKey::spec_from_code(*code).owner)
        { is_kept(code, worker, cache_owner) };
        age_map_retain(&mut self.inserted_at, keep);
        proof {
            let before = age_entries(old(self).inserted_at);
            let after = age_entries(self.inserted_at);
            assert(after.dom().subset_of(before.dom()));
            vstd::set_lib::lemma_len_subset(after.dom(), before.dom());
            assert(self@ =~= after_clear(old(self)@, either(worker, cache_owner)));
        }
    }

    /// Observes blocks as stored by `owner`.
    fn observe_stored(
        &mut self,
        owner: ResidencyOwner,
        blocks: &Vec<KvCacheStoredBlockData>,
        times: &Vec<u128>,
    )
        requires
            old(self).wf(),
            times@.len() == blocks@.len(),
            forall|i: int|
                0 <= i < times@.len() ==> #[trigger] times@[i] <= old(self).latest_reading(),
        ensures
            final(self).wf(),
            final(self).latest_reading() == old(self).latest_reading(),
            final(self).started() == old(self).started(),
            final(self)@ == after_store(
                old(self)@,
                owner,
                blocks@.map_values(|block: KvCacheStoredBlockData| block.block_hash),
                times@,
            ),
    {
        let ghost hashes = blocks@.map_values(|block: KvCacheStoredBlockData| block.block_hash);
        assert(self@ =~= after_store(old(self)@, owner, hashes.take(0), times@));
        let mut i: usize = 0;
        while i < blocks.len()
            invariant
                i <= blocks@.len(),
                times@.len() == blocks@.len(),
                forall|j: int|
                    0 <= j < times@.len() ==> #[trigger] times@[j] <= self.latest_reading(),
                self.latest_reading() == old(self).latest_reading(),
                self.started() == old(self).started(),
                hashes == blocks@.map_values(|block: KvCacheStoredBlockData| block.block_hash),
                self.wf(),
                self@ == after_store(old(self)@, owner, hashes.take(i as int), times@),
            decreases blocks.len() - i,
        {
            proof {
                lemma_after_store_step(old(self)@, owner, hashes, times@, i as int);
            }
            self.track(AgeKey { owner, block_hash: blocks[i].block_hash }, times[i]);
            i += 1;
        }
        assert(hashes.take(i as int) == hashes);
    }

    /// Observes blocks as removed by `owner`. Returns the lifetimes that end.
    fn observe_removed(
        &mut self,
        owner: ResidencyOwner,
        hashes: &Vec<ExternalSequenceBlockHash>,
        times: &Vec<u128>,
    ) -> (ended: Vec<u128>)
        requires
            old(self).wf(),
            times@.len() == hashes@.len(),
        ensures
            final(self).wf(),
            final(self).latest_reading() == old(self).latest_reading(),
            final(self).started() == old(self).started(),
            final(self)@ == after_remove(old(self)@, owner, hashes@),
            ended@ == lifetimes(old(self)@, owner, hashes@, times@),
    {
        let mut ended: Vec<u128> = Vec::new();
        assert(self@ =~= after_remove(old(self)@, owner, hashes@.take(0)));
        let mut i: usize = 0;
        while i < hashes.len()
            invariant
                i <= hashes@.len(),
                times@.len() == hashes@.len(),
                self.latest_reading() == old(self).latest_reading(),
                self.started() == old(self).started(),
                self.wf(),
                self@ == after_remove(old(self)@, owner, hashes@.take(i as int)),
                ended@ == lifetimes(old(self)@, owner, hashes@.take(i as int), times@),
            decreases hashes.len() - i,
        {
            proof {
                lemma_after_remove_step(old(self)@, owner, hashes@, times@, i as int);
            }
            if let Some(inserted_at) = self.untrack(AgeKey { owner, block_hash: hashes[i] }) {
                ended.push(time_since(times[i], inserted_at));
            }
            i += 1;
        }
        assert(hashes@.take(i as int) == hashes@);
        ended
    }

    /// Observes an event at the given clock readings, one for each block the
    /// event names, with the owner and the reset scope it resolves to.
    /// Lifetimes that end are recorded where there are metrics to record them
    /// in.
    pub fn observe_resolved_event(
        &mut self,
        event: &RouterEvent,
        owner: Result<ResidencyOwner, ResidencyError>,
        scope: Result<Option<ResetScope>, ResidencyError>,
        times: &Vec<u128>,
        metrics: Option<&mut KvIndexerMetrics>,
    )
        requires
            old(self).wf(),
            times@.len() == event.event.data.hashes().len(),
        ensures
            final(self).wf(),
            final(self)@ == after_event(old(self)@, *event, owner, scope, times@),
            final(self).latest_reading() == latest_of(old(self).latest_reading(), times@),
            final(self).started() == old(self).started(),
            metrics matches Some(recorder) ==> final(recorder)@ == recorder@ + samples(
                event.storage_tier,
                event_lifetimes(old(self)@, *event, owner, times@),
            ),
    {
        self.clock.tell_all(times);
        proof {
            lemma_latest_of(old(self).latest_reading(), times@);
            assert(self.wf());
        }
        match &event.event.data {
            KvCacheEventData::Stored(store) => {
                if let Ok(owner) = owner {
                    self.observe_stored(owner, &store.blocks, times);
                }
            },
            KvCacheEventData::Removed(remove) => {
                if let Ok(owner) = owner {
                    let ended = self.observe_removed(owner, &remove.block_hashes, times);
                    if let Some(recorder) = metrics {
                        record(recorder, event.storage_tier, &ended);
                    }
                }
            },
            KvCacheEventData::Cleared => {
                if let Ok(Some(scope)) = scope {
                    let worker = ResidencyOwner::worker(event.reporting_worker());
                    let cache_owner = match event.state_source {
                        Some(id) => Some(ResidencyOwner::cache_owner(id)),
                        None => None,
                    };
                    match scope {
                        ResetScope::All => self.purge(Some(worker), cache_owner),
                        ResetScope::Domain(ResidencyDomain::Worker) => self.purge(
                            Some(worker),
                            None,
                        ),
                        ResetScope::Domain(ResidencyDomain::CacheOwner) => self.purge(
                            None,
                            cache_owner,
                        ),
                    }
                }
            },
        }
    }

    /// Observes an event now. Each block the event names has a reading of its
    /// own. The readings neither go back nor lie before any time the tracker
    /// has observed a block at, and whatever they are, the event is observed at
    /// them.
    pub fn observe_event(&mut self, event: &RouterEvent, metrics: Option<&mut KvIndexerMetrics>)
        requires
            old(self).wf(),
        ensures
            final(self).wf(),
            final(self).started() == old(self).started(),
            exists|times: Seq<u128>|
                {
                    &&& times.len() == event.event.data.hashes().len()
                    &&& never_goes_back(old(self).latest_reading(), times)
                    &&& forall|key: AgeKey, i: int|
                        #![trigger old(self)@.contains_key(key), times[i]]
                        old(self)@.contains_key(key) && 0 <= i < times.len() ==> old(self)@[key]
                            <= times[i]
                    &&& forall|i: int|
                        0 <= i < times.len() ==> is_shown(
                            old(self).started(),
                            latest_of(old(self).latest_reading(), times.take(i)),
                            #[trigger] times[i],
                        )
                    &&& final(self).latest_reading() == latest_of(
                        old(self).latest_reading(),
                        times,
                    )
                    &&& final(self)@ == #[trigger] after_event(
                        old(self)@,
                        *event,
                        event.spec_residency_owner(),
                        event.spec_reset_scope(),
                        times,
                    )
                    &&& metrics matches Some(recorder) ==> final(recorder)@ == recorder@ + samples(
                        event.storage_tier,
                        event_lifetimes(old(self)@, *event, event.spec_residency_owner(), times),
                    )
                },
    {
        let times = self.clock.readings(event.event.data.block_count());
        proof {
            self.lemma_times_are_past();
        }
        self.observe_resolved_event(
            event,
            event.residency_owner(),
            event.reset_scope(),
            &times,
            metrics,
        );
    }

    /// When a copy was first observed as stored, if it is resident.
    pub fn inserted_at(
        &self,
        owner: ResidencyOwner,
        block_hash: ExternalSequenceBlockHash,
    ) -> (time: Option<u128>)
        requires
            self.wf(),
        ensures
            time == if self@.contains_key(key_of(owner, block_hash)) {
                Some(self@[key_of(owner, block_hash)])
            } else {
                None
            },
    {
        let code = AgeKey { owner, block_hash }.code();
        age_map_get(&self.inserted_at, &code)
    }

    /// How many copies are resident.
    pub fn resident_copies(&self) -> (count: usize)
        requires
            self.wf(),
        ensures
            count == self@.len(),
    {
        proof {
            lemma_decoded_len(age_entries(self.inserted_at));
        }
        age_map_len(&self.inserted_at)
    }

    /// The resident copies with their times, each once, in some order.
    fn snapshot(&self) -> (entries: Vec<(AgeKey, u128)>)
        requires
            self.wf(),
        ensures
            lists(entries@, self@),
    {
        let coded = age_map_iter(&self.inserted_at);
        let mut entries: Vec<(AgeKey, u128)> = Vec::with_capacity(coded.len());
        while entries.len() < coded.len()
            invariant
                entries@.len() <= coded@.len(),
                forall|i: int|
                    0 <= i < entries@.len() ==> #[trigger] entries@[i] == (
                        AgeKey::spec_from_code(coded@[i].0),
                        coded@[i].1,
                    ),
            decreases coded@.len() - entries@.len(),
        {
            let i = entries.len();
            entries.push((AgeKey::from_code(&coded[i].0), coded[i].1));
        }
        proof {
            assert forall|i: int| 0 <= i < entries@.len() implies self@.contains_key(
                (#[trigger] entries@[i]).0,
            ) && self@[entries@[i].0] == entries@[i].1 by {
                assert(age_entries(self.inserted_at).contains_key(coded@[i].0));
            }
            assert forall|i: int, j: int| 0 <= i < j < entries@.len() implies (
            #[trigger] entries@[i]).0 != (#[trigger] entries@[j]).0 by {
                assert(age_entries(self.inserted_at).contains_key(coded@[i].0));
                assert(age_entries(self.inserted_at).contains_key(coded@[j].0));
            }
            assert forall|key: AgeKey| #[trigger] self@.contains_key(key) implies entries@.contains(
                (key, self@[key]),
            ) by {
                let i = coded@.index_of((key.spec_code(), self@[key]));
                assert(entries@[i] == (key, self@[key]));
            }
        }
        entries
    }

    /// The smallest, median, 99th-percentile and largest age of the resident
    /// copies at `now`, or nothing where there is no resident copy.
    pub fn resident_age_percentiles_at(&self, now: u128) -> (stats: Option<AgeStats>)
        requires
            self.wf(),
        ensures
            stats == spec_age_stats(resident_ages(self@, now)),
    {
        let entries = self.snapshot();
        let mut ages: Vec<u128> = Vec::with_capacity(entries.len());
        while ages.len() < entries.len()
            invariant
                ages@.len() <= entries@.len(),
                forall|i: int|
                    0 <= i < ages@.len() ==> #[trigger] ages@[i] == spec_time_since(
                        now,
                        entries@[i].1,
                    ),
            decreases entries@.len() - ages@.len(),
        {
            let i = ages.len();
            ages.push(time_since(now, entries[i].1));
        }
        proof {
            lemma_listed_ages(entries@, self@, now, ages@);
            lemma_stats_ignore_order(ages@, resident_ages(self@, now));
        }
        age_stats(ages)
    }

    /// The smallest, median, 99th-percentile and largest age of the resident
    /// copies now, or nothing where there is no resident copy. The ages are taken
    /// at a reading of the tracker's clock, or at the latest reading before where
    /// that is later. No resident copy was stored after it.
    pub fn resident_age_percentiles(&self) -> (stats: Option<AgeStats>)
        requires
            self.wf(),
        ensures
            stats is None <==> self@.is_empty(),
            exists|now: u128|
                {
                    &&& stats == spec_age_stats(#[trigger] resident_ages(self@, now))
                    &&& is_shown(self.started(), self.latest_reading(), now)
                    &&& self.latest_reading() <= now
                    &&& forall|key: AgeKey| #[trigger]
                        self@.contains_key(key) ==> self@[key] <= now
                },
    {
        let now = self.clock.now();
        let stats = self.resident_age_percentiles_at(now);
        proof {
            self.lemma_resident_is_finite();
            self.lemma_times_are_past();
            lemma_percentiles_are_ages(self@, now);
        }
        stats
    }

    /// How many copies each worker rank holds.
    pub fn resident_block_counts_by_worker(&self) -> (counts: WorkerBlockCounts)
        requires
            self.wf(),
        ensures
            counts.wf(),
            counts@ == counts_by_worker(self@),
    {
        let entries = self.snapshot();
        let mut counts = WorkerBlockCounts::new();
        let mut i: usize = 0;
        assert(counts@ =~= counts_by_worker(listed(entries@.take(0)))) by {
            assert(forall|worker: WorkerWithDpRank|
                held_by(listed(entries@.take(0)), worker) =~= Set::<AgeKey>::empty());
        }
        while i < entries.len()
            invariant
                i <= entries@.len(),
                lists(entries@, self@),
                counts.wf(),
                counts@ == counts_by_worker(listed(entries@.take(i as int))),
            decreases entries.len() - i,
        {
            proof {
                lemma_listed_prefix(entries@, self@, i as int);
                lemma_counts_step(
                    listed(entries@.take(i as int)),
                    entries@[i as int].0,
                    entries@[i as int].1,
                );
            }
            if let ResidencyOwner::Worker(worker) = entries[i].0.owner {
                counts.add(worker);
            }
            i += 1;
        }
        proof {
            lemma_listed_all(entries@, self@);
            assert(entries@.take(i as int) == entries@);
        }
        counts
    }

    /// The blocks of which there is a resident copy, whoever holds it.
    pub fn resident_block_hashes(&self) -> (hashes: HashSet<u64, FxBuildHasher>)
        requires
            self.wf(),
        ensures
            hashes@ == resident_hashes(self@),
    {
        let entries = self.snapshot();
        let mut hashes: HashSet<u64, FxBuildHasher> = HashSet::default();
        let mut i: usize = 0;
        assert(hashes@ =~= resident_hashes(listed(entries@.take(0))));
        while i < entries.len()
            invariant
                i <= entries@.len(),
                lists(entries@, self@),
                hashes@ == resident_hashes(listed(entries@.take(i as int))),
            decreases entries.len() - i,
        {
            proof {
                lemma_listed_prefix(entries@, self@, i as int);
                lemma_hashes_step(
                    listed(entries@.take(i as int)),
                    entries@[i as int].0,
                    entries@[i as int].1,
                );
            }
            hash_set_insert(&mut hashes, entries[i].0.block_hash.0);
            i += 1;
        }
        proof {
            lemma_listed_all(entries@, self@);
            assert(entries@.take(i as int) == entries@);
        }
        hashes
    }

    /// No copy is resident since later than the latest reading.
    pub proof fn lemma_times_are_past(&self)
        requires
            self.wf(),
        ensures
            forall|key: AgeKey| #[trigger]
                self@.contains_key(key) ==> self@[key] <= self.latest_reading(),
    {
    }

    /// The resident copies are finitely many.
    pub proof fn lemma_resident_is_finite(&self)
        requires
            self.wf(),
        ensures
            self@.dom().finite(),
    {
        lemma_decoded_len(age_entries(self.inserted_at));
    }
}

/// Decoding neither merges nor loses entries.
proof fn lemma_decoded_len(entries: Map<AgeCode, u128>)
    requires
        entries.dom().finite(),
        forall|code: AgeCode| #[trigger]
            entries.contains_key(code) ==> AgeKey::spec_from_code(code).spec_code() == code,
    ensures
        decoded(entries).dom().finite(),
        decoded(entries).len() == entries.len(),
{
    let decode = |code: AgeCode| AgeKey::spec_from_code(code);
    assert(entries.dom().map(decode) =~= decoded(entries).dom()) by {
        assert forall|key: AgeKey| decoded(entries).dom().contains(key) implies entries.dom().map(
            decode,
        ).contains(key) by {
            assert(entries.dom().contains(key.spec_code()));
            assert(decode(key.spec_code()) == key);
        }
    }
    vstd::set_lib::lemma_map_size(entries.dom(), decoded(entries).dom(), decode);
}

} // verus!
