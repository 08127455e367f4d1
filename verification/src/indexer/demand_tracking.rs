//! How much distinct content was asked for lately.
//!
//! A `DemandTracker` remembers when each block was first observed as stored,
//! by content alone: whoever stores it, it is one block, and removing a copy
//! does not take the demand back. What bounds the tracker is time: whenever
//! it is counted, blocks first seen longer ago than a window are dropped.

use vstd::prelude::*;
use std::time::Instant;
use crate::indexer::age_key::AgeKey;
use crate::indexer::age_model::after_event;
use crate::indexer::clock::{
    is_reading, is_shown, later_of, latest_of, lemma_latest_of, never_goes_back, spec_time_since, time_since, Clock,
};
use crate::indexer::concurrent_maps::{
    demand_entries, demand_map_default, demand_map_len, demand_map_or_insert, demand_map_retain,
    DemandMap,
};
use crate::protocols::{
    ExternalSequenceBlockHash, KvCacheEventData, KvCacheStoreData, KvCacheStoredBlockData, ResetScope,
    ResidencyError, ResidencyOwner, RouterEvent,
};

verus! {

/// What storing blocks leaves seen. A block seen before keeps its time. A new
/// block gets the reading of its first mention.
pub open spec fn after_demand(
    seen: Map<ExternalSequenceBlockHash, u128>,
    hashes: Seq<ExternalSequenceBlockHash>,
    times: Seq<u128>,
) -> Map<ExternalSequenceBlockHash, u128> {
    Map::new(
        |hash: ExternalSequenceBlockHash| seen.contains_key(hash) || hashes.contains(hash),
        |hash: ExternalSequenceBlockHash|
            if seen.contains_key(hash) {
                seen[hash]
            } else {
                times[hashes.index_of_first(hash)->0]
            },
    )
}

/// What an event leaves seen. Only store events speak of demand.
pub open spec fn demand_after_event(
    seen: Map<ExternalSequenceBlockHash, u128>,
    event: RouterEvent,
    times: Seq<u128>,
) -> Map<ExternalSequenceBlockHash, u128> {
    match event.event.data {
        KvCacheEventData::Stored(_) => after_demand(seen, event.event.data.hashes(), times),
        _ => seen,
    }
}

/// The blocks first seen less than `window` before `now`.
pub open spec fn within_window(
    seen: Map<ExternalSequenceBlockHash, u128>,
    now: u128,
    window: u128,
) -> Map<ExternalSequenceBlockHash, u128> {
    Map::new(
        |hash: ExternalSequenceBlockHash|
            seen.contains_key(hash) && spec_time_since(now, seen[hash]) < window,
        |hash: ExternalSequenceBlockHash| seen[hash],
    )
}

/// Storing one block more: the step from a prefix of an event to the next.
proof fn lemma_after_demand_step(
    seen: Map<ExternalSequenceBlockHash, u128>,
    hashes: Seq<ExternalSequenceBlockHash>,
    times: Seq<u128>,
    n: int,
)
    requires
        0 <= n < hashes.len(),
    ensures
        ({
            let before = after_demand(seen, hashes.take(n), times);
            after_demand(seen, hashes.take(n + 1), times) == if before.contains_key(hashes[n]) {
                before
            } else {
                before.insert(hashes[n], times[n])
            }
        }),
{
    let shorter = hashes.take(n);
    let longer = hashes.take(n + 1);
    let before = after_demand(seen, shorter, times);
    let after = after_demand(seen, longer, times);
    assert forall|hash: ExternalSequenceBlockHash| #[trigger]
        longer.contains(hash) <==> shorter.contains(hash) || hash == hashes[n] by {
        if shorter.contains(hash) {
            let i = shorter.index_of(hash);
            assert(longer[i] == hash);
        }
        assert(longer[n] == hashes[n]);
        if longer.contains(hash) && hash != hashes[n] {
            let i = longer.index_of(hash);
            assert(shorter[i] == hash);
        }
    }
    assert forall|hash: ExternalSequenceBlockHash| longer.contains(
        hash,
    ) implies #[trigger] longer.index_of_first(hash)->0 == (if shorter.contains(hash) {
        shorter.index_of_first(hash)->0
    } else {
        n
    }) by {
        longer.index_of_first_ensures(hash);
        shorter.index_of_first_ensures(hash);
        let i = longer.index_of_first(hash)->0;
        if shorter.contains(hash) {
            let j = shorter.index_of_first(hash)->0;
            assert(longer[j] == shorter[j]);
            assert(i <= j);
            assert(shorter[i] == longer[i]);
        } else {
            if i < n {
                assert(shorter[i] == longer[i]);
            }
        }
    }
    if before.contains_key(hashes[n]) {
        assert(after =~= before);
    } else {
        assert(after =~= before.insert(hashes[n], times[n]));
    }
}

/// The blocks that the entries of a `DemandMap` stand for.
spec fn decoded(entries: Map<u64, u128>) -> Map<ExternalSequenceBlockHash, u128> {
    Map::new(
        |hash: ExternalSequenceBlockHash| entries.contains_key(hash.0),
        |hash: ExternalSequenceBlockHash| entries[hash.0],
    )
}

/// When each block was first observed as stored. The view maps the blocks to
/// those times, in nanoseconds on the tracker's clock.
pub struct DemandTracker {
    clock: Clock,
    first_seen: DemandMap,
}

impl View for DemandTracker {
    type V = Map<ExternalSequenceBlockHash, u128>;

    closed spec fn view(&self) -> Map<ExternalSequenceBlockHash, u128> {
        decoded(demand_entries(self.first_seen))
    }
}

impl Default for DemandTracker {
    fn default() -> (tracker: Self)
        ensures
            tracker.wf(),
            tracker@ == Map::<ExternalSequenceBlockHash, u128>::empty(),
            tracker.latest_reading() == 0,
    {
        let tracker = DemandTracker { clock: Clock::start(), first_seen: demand_map_default() };
        assert(tracker@ =~= Map::<ExternalSequenceBlockHash, u128>::empty());
        tracker
    }
}

impl DemandTracker {
    /// The map is finite, and no entry is of a time that the clock has not
    /// been told of.
    pub closed spec fn wf(&self) -> bool {
        &&& demand_entries(self.first_seen).dom().finite()
        &&& forall|hash: u64| #[trigger]
            demand_entries(self.first_seen).contains_key(hash) ==> demand_entries(
                self.first_seen,
            )[hash] <= self.clock.latest()
    }

    /// The latest time at which the tracker has observed a block or was
    /// pruned.
    pub closed spec fn latest_reading(&self) -> u128 {
        self.clock.latest()
    }

    /// When the tracker's clock was started.
    pub closed spec fn started(&self) -> Instant {
        self.clock.started()
    }

    /// A tracker that has seen nothing.
    pub fn new() -> (tracker: Self)
        ensures
            tracker.wf(),
            tracker@ == Map::<ExternalSequenceBlockHash, u128>::empty(),
            tracker.latest_reading() == 0,
    {
        DemandTracker::default()
    }

    /// Observes an event at the given clock readings, one for each block the
    /// event names.
    pub fn observe_event_at(&mut self, event: &RouterEvent, times: &Vec<u128>)
        requires
            old(self).wf(),
            times@.len() == event.event.data.hashes().len(),
        ensures
            final(self).wf(),
            final(self)@ == demand_after_event(old(self)@, *event, times@),
            final(self).latest_reading() == latest_of(old(self).latest_reading(), times@),
            final(self).started() == old(self).started(),
    {
        self.clock.tell_all(times);
        proof {
            lemma_latest_of(old(self).latest_reading(), times@);
            assert(self.wf());
        }
        if let KvCacheEventData::Stored(store) = &event.event.data {
            let ghost hashes = event.event.data.hashes();
            assert(self@ =~= after_demand(old(self)@, hashes.take(0), times@));
            let mut i: usize = 0;
            while i < store.blocks.len()
                invariant
                    i <= store.blocks@.len(),
                    times@.len() == store.blocks@.len(),
                    forall|j: int|
                        0 <= j < times@.len() ==> #[trigger] times@[j] <= self.latest_reading(),
                    self.latest_reading() == latest_of(old(self).latest_reading(), times@),
                    self.started() == old(self).started(),
                    hashes == store.blocks@.map_values(
                        |block: KvCacheStoredBlockData| block.block_hash,
                    ),
                    self.wf(),
                    self@ == after_demand(old(self)@, hashes.take(i as int), times@),
                decreases store.blocks.len() - i,
            {
                let ghost before = self@;
                demand_map_or_insert(
                    &mut self.first_seen,
                    store.blocks[i].block_hash.0,
                    times[i],
                );
                proof {
                    lemma_after_demand_step(old(self)@, hashes, times@, i as int);
                    let hash = hashes[i as int];
                    if before.contains_key(hash) {
                        assert(self@ =~= before);
                    } else {
                        assert(self@ =~= before.insert(hash, times@[i as int]));
                    }
                }
                i += 1;
            }
            assert(hashes.take(i as int) == hashes);
        }
    }

    /// Observes an event now. Each block the event names has a reading of its
    /// own. The readings neither go back nor lie before any earlier reading,
    /// and whatever they are, the event is observed at them.
    pub fn observe_event(&mut self, event: &RouterEvent)
        requires
            old(self).wf(),
        ensures
            final(self).wf(),
            final(self).started() == old(self).started(),
            exists|times: Seq<u128>|
                {
                    &&& times.len() == event.event.data.hashes().len()
                    &&& never_goes_back(old(self).latest_reading(), times)
                    &&& forall|hash: ExternalSequenceBlockHash, i: int|
                        #![trigger old(self)@.contains_key(hash), times[i]]
                        old(self)@.contains_key(hash) && 0 <= i < times.len() ==> old(self)@[hash]
                            <= times[i]
                    &&& forall|i: int|
                        0 <= i < times.len() ==> is_shown(
                            old(self).started(),
                            latest_of(old(self).latest_reading(), times.take(i)),
                            #[trigger] times[i],
                        )
                    &&& final(self).latest_reading() == latest_of(
                        old(self).latest_reading(),
                        times,
                    )
                    &&& final(self)@ == #[trigger] demand_after_event(old(self)@, *event, times)
                },
    {
        let times = self.clock.readings(event.event.data.block_count());
        proof {
            self.lemma_times_are_past();
        }
        self.observe_event_at(event, &times);
    }

    /// Drops the blocks first seen `window` nanoseconds or longer before
    /// `now`, and counts the rest.
    pub fn prune_and_count_at(&mut self, now: u128, window: u128) -> (count: usize)
        requires
            old(self).wf(),
        ensures
            final(self).wf(),
            final(self)@ == within_window(old(self)@, now, window),
            final(self).latest_reading() == later_of(old(self).latest_reading(), now),
            final(self).started() == old(self).started(),
            count == final(self)@.len(),
    {
        self.clock.tell(now);
        let keep = |hash: &u64, time: &u128| -> (kept: bool)
            ensures kept == (spec_time_since(now, *time) < window)
        { time_since(now, *time) < window };
        demand_map_retain(&mut self.first_seen, keep);
        proof {
            let before = demand_entries(old(self).first_seen);
            let after = demand_entries(self.first_seen);
            assert(after.dom().subset_of(before.dom()));
            vstd::set_lib::lemma_len_subset(after.dom(), before.dom());
            assert(self@ =~= within_window(old(self)@, now, window));
            lemma_decoded_len(after);
        }
        demand_map_len(&self.first_seen)
    }

    /// Drops the blocks first seen `window` nanoseconds or longer ago, and
    /// counts the rest. What is pruned at is a reading of the tracker's clock, or
    /// the latest reading before where that is later, and so lies before no time
    /// a block was seen at.
    pub fn prune_and_count(&mut self, window: u128) -> (count: usize)
        requires
            old(self).wf(),
        ensures
            final(self).wf(),
            count == final(self)@.len(),
            final(self).started() == old(self).started(),
            exists|now: u128|
                {
                    &&& final(self)@ == #[trigger] within_window(old(self)@, now, window)
                    &&& is_shown(old(self).started(), old(self).latest_reading(), now)
                    &&& old(self).latest_reading() <= now
                    &&& final(self).latest_reading() == now
                    &&& forall|hash: ExternalSequenceBlockHash| #[trigger]
                        old(self)@.contains_key(hash) ==> old(self)@[hash] <= now
                },
    {
        let now = self.clock.now();
        proof {
            self.lemma_times_are_past();
        }
        self.prune_and_count_at(now, window)
    }

    /// No block was first seen later than the latest reading.
    pub proof fn lemma_times_are_past(&self)
        requires
            self.wf(),
        ensures
            forall|hash: ExternalSequenceBlockHash| #[trigger]
                self@.contains_key(hash) ==> self@[hash] <= self.latest_reading(),
    {
    }

    /// The blocks seen are finitely many.
    pub proof fn lemma_seen_is_finite(&self)
        requires
            self.wf(),
        ensures
            self@.dom().finite(),
    {
        lemma_decoded_len(demand_entries(self.first_seen));
    }
}

/// Decoding neither merges nor loses entries.
proof fn lemma_decoded_len(entries: Map<u64, u128>)
    requires
        entries.dom().finite(),
    ensures
        decoded(entries).dom().finite(),
        decoded(entries).len() == entries.len(),
{
    let decode = |hash: u64| ExternalSequenceBlockHash(hash);
    assert(entries.dom().map(decode) =~= decoded(entries).dom()) by {
        assert forall|hash: ExternalSequenceBlockHash| decoded(entries).dom().contains(
            hash,
        ) implies entries.dom().map(decode).contains(hash) by {
            assert(decode(hash.0) == hash);
        }
    }
    vstd::set_lib::lemma_map_size(entries.dom(), decoded(entries).dom(), decode);
}

/// Removing blocks or clearing a cache takes no demand back.
pub proof fn lemma_removal_keeps_demand(
    seen: Map<ExternalSequenceBlockHash, u128>,
    event: RouterEvent,
    times: Seq<u128>,
)
    requires
        !(event.event.data is Stored),
    ensures
        demand_after_event(seen, event, times) == seen,
{
}

/// Demand is for content: who stores a block, and where, makes no difference.
pub proof fn lemma_demand_ignores_who_stores(
    seen: Map<ExternalSequenceBlockHash, u128>,
    one: RouterEvent,
    other: RouterEvent,
    times: Seq<u128>,
)
    requires
        one.event.data == other.event.data,
    ensures
        demand_after_event(seen, one, times) == demand_after_event(seen, other, times),
{
}

/// A block that is stored again is one block still, and keeps the time it was
/// first seen at, whoever stores it.
pub proof fn lemma_repeated_demand_counts_once(
    seen: Map<ExternalSequenceBlockHash, u128>,
    one: RouterEvent,
    other: RouterEvent,
    times: Seq<u128>,
    later: Seq<u128>,
)
    requires
        one.event.data == other.event.data,
    ensures
        demand_after_event(demand_after_event(seen, one, times), other, later)
            == demand_after_event(seen, one, times),
        forall|hash: ExternalSequenceBlockHash| #[trigger]
            seen.contains_key(hash) ==> demand_after_event(seen, one, times).contains_key(hash)
                && demand_after_event(seen, one, times)[hash] == seen[hash],
{
    let once = demand_after_event(seen, one, times);
    assert(demand_after_event(once, other, later) =~= once);
}

/// A window of no width holds nothing, and a wider window holds at least what
/// a narrower one does.
pub proof fn lemma_window_width(
    seen: Map<ExternalSequenceBlockHash, u128>,
    now: u128,
    narrow: u128,
    wide: u128,
)
    requires
        narrow <= wide,
    ensures
        within_window(seen, now, 0) == Map::<ExternalSequenceBlockHash, u128>::empty(),
        within_window(seen, now, narrow).submap_of(within_window(seen, now, wide)),
        within_window(seen, now, wide).submap_of(seen),
{
    assert(within_window(seen, now, 0) =~= Map::<ExternalSequenceBlockHash, u128>::empty());
}

/// Time bounds what is kept: of blocks first seen no later than `now`, exactly
/// those go for which the window has passed, and every one that stays was
/// first seen within it.
pub proof fn lemma_window_bounds_what_stays(
    seen: Map<ExternalSequenceBlockHash, u128>,
    now: u128,
    window: u128,
    hash: ExternalSequenceBlockHash,
)
    requires
        forall|h: ExternalSequenceBlockHash| #[trigger] seen.contains_key(h) ==> seen[h] <= now,
        seen.contains_key(hash),
    ensures
        within_window(seen, now, window).contains_key(hash) <==> now < seen[hash] + window,
{
}

/// Pruning on the way makes no difference to what is counted later: a block
/// counts until it has aged out of the window, and not after.
pub proof fn lemma_pruning_early_changes_no_count(
    seen: Map<ExternalSequenceBlockHash, u128>,
    earlier: u128,
    now: u128,
    window: u128,
)
    requires
        earlier <= now,
    ensures
        within_window(within_window(seen, earlier, window), now, window) == within_window(
            seen,
            now,
            window,
        ),
{
    assert(within_window(within_window(seen, earlier, window), now, window) =~= within_window(
        seen,
        now,
        window,
    ));
}

/// Whatever is resident has been asked for: where every resident block has
/// been seen, that is so after any event that both trackers observe.
pub proof fn lemma_demand_covers_residency(
    resident: Map<AgeKey, u128>,
    seen: Map<ExternalSequenceBlockHash, u128>,
    event: RouterEvent,
    owner: Result<ResidencyOwner, ResidencyError>,
    scope: Result<Option<ResetScope>, ResidencyError>,
    times: Seq<u128>,
    demand_times: Seq<u128>,
)
    requires
        forall|key: AgeKey| #[trigger]
            resident.contains_key(key) ==> seen.contains_key(key.block_hash),
    ensures
        forall|key: AgeKey| #[trigger]
            after_event(resident, event, owner, scope, times).contains_key(key)
                ==> demand_after_event(seen, event, demand_times).contains_key(key.block_hash),
{
}

/// What a stream of events leaves seen. Each event comes with its clock
/// readings.
pub open spec fn demand_after_events(
    seen: Map<ExternalSequenceBlockHash, u128>,
    events: Seq<(RouterEvent, Seq<u128>)>,
) -> Map<ExternalSequenceBlockHash, u128>
    decreases events.len(),
{
    if events.len() == 0 {
        seen
    } else {
        demand_after_event(
            demand_after_events(seen, events.drop_last()),
            events.last().0,
            events.last().1,
        )
    }
}

/// Whether an event reports a block as stored.
pub open spec fn asks_for(event: RouterEvent, hash: ExternalSequenceBlockHash) -> bool {
    event.event.data is Stored && event.event.data.hashes().contains(hash)
}

/// After any stream of events, exactly those blocks have been seen that some
/// event reported as stored, whatever came after it.
pub proof fn lemma_seen_is_what_was_asked_for(
    events: Seq<(RouterEvent, Seq<u128>)>,
    hash: ExternalSequenceBlockHash,
)
    ensures
        demand_after_events(Map::empty(), events).contains_key(hash) <==> exists|i: int|
            0 <= i < events.len() && asks_for((#[trigger] events[i]).0, hash),
    decreases events.len(),
{
    if events.len() > 0 {
        let shorter = events.drop_last();
        let n = events.len() - 1;
        lemma_seen_is_what_was_asked_for(shorter, hash);
        assert(events[n] == events.last());
        if exists|i: int| 0 <= i < shorter.len() && asks_for((#[trigger] shorter[i]).0, hash) {
            let i = choose|i: int|
                0 <= i < shorter.len() && asks_for((#[trigger] shorter[i]).0, hash);
            assert(events[i] == shorter[i]);
        }
        if exists|i: int| 0 <= i < events.len() && asks_for((#[trigger] events[i]).0, hash) {
            let i = choose|i: int|
                0 <= i < events.len() && asks_for((#[trigger] events[i]).0, hash);
            if i < n {
                assert(shorter[i] == events[i]);
            }
        }
    }
}

/// After a store, every block of the event has been seen, whatever the blocks
/// are stored behind and wherever they start, and so has every block seen
/// before. No other has, and no block seen before changes its time.
pub proof fn lemma_stored_blocks_are_seen(
    seen: Map<ExternalSequenceBlockHash, u128>,
    event: RouterEvent,
    store: KvCacheStoreData,
    times: Seq<u128>,
)
    requires
        event.event.data == KvCacheEventData::Stored(store),
    ensures
        ({
            let after = demand_after_event(seen, event, times);
            &&& forall|i: int|
                0 <= i < store.blocks@.len() ==> after.contains_key(
                    (#[trigger] store.blocks@[i]).block_hash,
                )
            &&& forall|hash: ExternalSequenceBlockHash| #[trigger]
                seen.contains_key(hash) ==> after.contains_key(hash) && after[hash] == seen[hash]
            &&& forall|hash: ExternalSequenceBlockHash| #[trigger]
                after.contains_key(hash) && !seen.contains_key(hash) ==> exists|i: int|
                    0 <= i < store.blocks@.len() && (#[trigger] store.blocks@[i]).block_hash
                        == hash
        }),
{
    let after = demand_after_event(seen, event, times);
    let hashes = event.event.data.hashes();
    assert forall|i: int| 0 <= i < store.blocks@.len() implies after.contains_key(
        (#[trigger] store.blocks@[i]).block_hash,
    ) by {
        assert(hashes[i] == store.blocks@[i].block_hash);
    }
    assert forall|hash: ExternalSequenceBlockHash| #[trigger]
        after.contains_key(hash) && !seen.contains_key(hash) implies exists|i: int|
        0 <= i < store.blocks@.len() && (#[trigger] store.blocks@[i]).block_hash == hash by {
        let i = hashes.index_of(hash);
        assert(hashes[i] == store.blocks@[i].block_hash);
    }
}

/// A block that a store is the first to show gets the reading of the first
/// place at which the event has it.
pub proof fn lemma_new_block_is_timed_at_its_first_place(
    seen: Map<ExternalSequenceBlockHash, u128>,
    event: RouterEvent,
    store: KvCacheStoreData,
    times: Seq<u128>,
    i: int,
)
    requires
        event.event.data == KvCacheEventData::Stored(store),
        0 <= i < store.blocks@.len(),
        forall|j: int|
            0 <= j < i ==> (#[trigger] store.blocks@[j]).block_hash
                != store.blocks@[i].block_hash,
        !seen.contains_key(store.blocks@[i].block_hash),
    ensures
        demand_after_event(seen, event, times)[store.blocks@[i].block_hash] == times[i],
{
    let hashes = event.event.data.hashes();
    let hash = store.blocks@[i].block_hash;
    assert(hashes[i] == hash);
    hashes.index_of_first_ensures(hash);
    let first = hashes.index_of_first(hash)->0;
    assert(hashes[first] == store.blocks@[first].block_hash);
}

/// Pruning at `now` keeps just the blocks first seen less than `window` before
/// it, with the times they had. A block seen later than that counts as seen at
/// `now`.
pub proof fn lemma_window_keeps_by_time(
    seen: Map<ExternalSequenceBlockHash, u128>,
    now: u128,
    window: u128,
    hash: ExternalSequenceBlockHash,
)
    ensures
        within_window(seen, now, window).contains_key(hash) <==> seen.contains_key(hash) && (
        if seen[hash] <= now {
            now - seen[hash] < window
        } else {
            0 < window
        }),
        within_window(seen, now, window).contains_key(hash) ==> within_window(
            seen,
            now,
            window,
        )[hash] == seen[hash],
{
}

/// Pruning at what a clock shows is pruning at a reading of that clock: there
/// is one such that a block stays just where its window had passed neither at
/// that reading nor at the latest time before.
pub proof fn lemma_pruning_goes_by_the_clock(
    seen: Map<ExternalSequenceBlockHash, u128>,
    start: Instant,
    latest: u128,
    now: u128,
    window: u128,
)
    requires
        is_shown(start, latest, now),
        forall|hash: ExternalSequenceBlockHash| #[trigger]
            seen.contains_key(hash) ==> seen[hash] <= latest,
    ensures
        exists|read: u128|
            {
                &&& #[trigger] is_reading(start, read)
                &&& forall|hash: ExternalSequenceBlockHash| #[trigger]
                    within_window(seen, now, window).contains_key(hash) <==> seen.contains_key(
                        hash,
                    ) && read < seen[hash] + window && latest < seen[hash] + window
            },
{
    let read = choose|read: u128| #[trigger]
        is_reading(start, read) && now == later_of(latest, read);
    assert forall|hash: ExternalSequenceBlockHash| #[trigger]
        within_window(seen, now, window).contains_key(hash) <==> seen.contains_key(hash) && read
            < seen[hash] + window && latest < seen[hash] + window by {
        lemma_window_keeps_by_time(seen, now, window, hash);
    }
}

} // verus!
