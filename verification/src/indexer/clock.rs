//! Reading the clock. Everything else in this crate takes times as plain
//! integers: nanoseconds since a clock was started.

use vstd::prelude::*;
use std::time::Instant;

verus! {

/// `std::time::Instant`, carried as the start of a clock.
#[verifier::external_type_specification]
#[verifier::external_body]
pub struct ExInstant(std::time::Instant);

/// `Instant::now`. Which instant that is depends on when it is asked, so
/// nothing is claimed of it.
#[verifier::external_body]
fn instant_now() -> (now: Instant) {
    Instant::now()
}

/// `Instant::elapsed`, in nanoseconds. How much time has passed depends on
/// when it is asked, so nothing is claimed of it. That a later call returns no
/// less is left unsaid here; [`Clock`] sees to it itself.
#[verifier::external_body]
fn instant_elapsed(start: &Instant) -> (nanos: u128) {
    start.elapsed().as_nanos()
}

/// Whether `nanos` is a result of [`instant_elapsed`] for `start`. That is known
/// of a value only where it came out of such a call. When the call was made is
/// left unsaid.
pub closed spec fn is_reading(start: Instant, nanos: u128) -> bool {
    call_ensures(instant_elapsed, (&start,), nanos)
}

/// What `source` returns for `start`.
fn ask<F: Fn(&Instant) -> u128>(source: F, start: &Instant) -> (nanos: u128)
    requires
        call_requires(source, (start,)),
    ensures
        call_ensures(source, (start,), nanos),
{
    source(start)
}

/// The later of two times.
pub open spec fn later_of(a: u128, b: u128) -> u128 {
    if a < b {
        b
    } else {
        a
    }
}

/// The latest of a number of times and of one more.
pub open spec fn latest_of(latest: u128, times: Seq<u128>) -> u128
    decreases times.len(),
{
    if times.len() == 0 {
        latest
    } else {
        later_of(latest_of(latest, times.drop_last()), times.last())
    }
}

/// Whether times, taken one after the other, neither go back nor lie before
/// `floor`.
pub open spec fn never_goes_back(floor: u128, times: Seq<u128>) -> bool {
    &&& forall|i: int| 0 <= i < times.len() ==> floor <= #[trigger] times[i]
    &&& forall|i: int, j: int|
        0 <= i <= j < times.len() ==> #[trigger] times[i] <= #[trigger] times[j]
}

/// Whether `time` is what a clock started at `start` may show after `latest`:
/// the later of the two of `latest` and a reading.
pub open spec fn is_shown(start: Instant, latest: u128, time: u128) -> bool {
    exists|read: u128| #[trigger] is_reading(start, read) && time == later_of(latest, read)
}

/// What a clock shows comes from a result of `Instant::elapsed` for its start:
/// it is that very value, or the latest time before where that is later.
proof fn lemma_shown_is_read(start: Instant, latest: u128, time: u128)
    requires
        is_shown(start, latest, time),
    ensures
        exists|read: u128| #[trigger]
            call_ensures(instant_elapsed, (&start,), read) && read <= time && (time == read || time
                == latest) && latest <= time,
{
    let read = choose|read: u128| #[trigger]
        is_reading(start, read) && time == later_of(latest, read);
    assert(call_ensures(instant_elapsed, (&start,), read));
}

/// The later of two times is one of the two, and the other is no later.
pub proof fn lemma_later_of(a: u128, b: u128)
    ensures
        a <= later_of(a, b),
        b <= later_of(a, b),
        later_of(a, b) == a || later_of(a, b) == b,
{
}

/// Times that never go back rise from each to the next, from the floor on.
pub proof fn lemma_never_goes_back(floor: u128, times: Seq<u128>, i: int, j: int)
    ensures
        never_goes_back(floor, times) && 0 <= i <= j < times.len() ==> floor <= times[i] <= times[j],
        (forall|m: int, n: int|
            0 <= m <= n < times.len() ==> floor <= #[trigger] times[m] <= #[trigger] times[n])
            ==> never_goes_back(floor, times),
{
}

/// Times are added up: from `earlier` it takes just the time since to reach
/// `later`, and no time at all passes backwards.
pub proof fn lemma_time_since(later: u128, earlier: u128)
    ensures
        earlier <= later ==> earlier + spec_time_since(later, earlier) == later,
        later <= earlier ==> spec_time_since(later, earlier) == 0,
{
}

/// The latest of a number of times is at or after each of them, and is one of
/// them.
pub proof fn lemma_latest_of(latest: u128, times: Seq<u128>)
    ensures
        latest <= latest_of(latest, times),
        forall|i: int| 0 <= i < times.len() ==> #[trigger] times[i] <= latest_of(latest, times),
        latest_of(latest, times) == latest || times.contains(latest_of(latest, times)),
    decreases times.len(),
{
    if times.len() > 0 {
        let shorter = times.drop_last();
        let before = latest_of(latest, shorter);
        lemma_latest_of(latest, shorter);
        assert(times[times.len() - 1] == times.last());
        assert forall|i: int| 0 <= i < times.len() implies #[trigger] times[i] <= latest_of(
            latest,
            times,
        ) by {
            if i < times.len() - 1 {
                assert(shorter[i] == times[i]);
            }
        }
        if before != latest && latest_of(latest, times) == before {
            let i = shorter.index_of(before);
            assert(times[i] == before);
        }
    }
}

/// A clock that counts nanoseconds from when it was started, and that never
/// reads earlier than the latest time it has been told of.
pub struct Clock {
    start: Instant,
    latest: u128,
}

impl Clock {
    /// The latest time this clock has been told of.
    pub closed spec fn latest(&self) -> u128 {
        self.latest
    }

    /// When this clock was started.
    pub closed spec fn started(&self) -> Instant {
        self.start
    }

    pub(crate) fn start() -> (clock: Self)
        ensures
            clock.latest() == 0,
    {
        Clock { start: instant_now(), latest: 0 }
    }

    /// Nanoseconds since the clock was started: a reading, or the latest time
    /// where that is later.
    pub(crate) fn now(&self) -> (nanos: u128)
        ensures
            self.latest() <= nanos,
            is_shown(self.started(), self.latest(), nanos),
    {
        let nanos = ask(instant_elapsed, &self.start);
        assert(is_reading(self.started(), nanos));
        if nanos < self.latest {
            self.latest
        } else {
            nanos
        }
    }

    /// Reads the clock `count` times, one reading after the other. Each time is
    /// a reading, or the latest time before it where that is later.
    pub(crate) fn readings(&self, count: usize) -> (times: Vec<u128>)
        ensures
            times@.len() == count,
            never_goes_back(self.latest(), times@),
            forall|i: int|
                0 <= i < times@.len() ==> is_shown(
                    self.started(),
                    latest_of(self.latest(), times@.take(i)),
                    #[trigger] times@[i],
                ),
    {
        let mut times: Vec<u128> = Vec::with_capacity(count);
        let mut previous: u128 = self.latest;
        while times.len() < count
            invariant
                times@.len() <= count,
                self.latest() <= previous,
                previous == latest_of(self.latest(), times@),
                never_goes_back(self.latest(), times@),
                forall|i: int| 0 <= i < times@.len() ==> #[trigger] times@[i] <= previous,
                forall|i: int|
                    0 <= i < times@.len() ==> is_shown(
                        self.started(),
                        latest_of(self.latest(), times@.take(i)),
                        #[trigger] times@[i],
                    ),
            decreases count - times@.len(),
        {
            let ghost earlier = times@;
            let ghost before = previous;
            let now = self.now();
            if previous < now {
                previous = now;
            }
            times.push(previous);
            proof {
                let read = choose|read: u128| #[trigger]
                    is_reading(self.started(), read) && now == later_of(self.latest(), read);
                assert(previous == later_of(before, read));
                assert(times@.drop_last() == earlier);
                assert forall|i: int| 0 <= i < times@.len() implies is_shown(
                    self.started(),
                    latest_of(self.latest(), times@.take(i)),
                    #[trigger] times@[i],
                ) by {
                    assert(times@.take(i) == earlier.take(i));
                    if i < earlier.len() {
                        assert(earlier[i] == times@[i]);
                    } else {
                        assert(earlier.take(i) == earlier);
                    }
                }
            }
        }
        times
    }

    /// Tells the clock of a time.
    pub(crate) fn tell(&mut self, time: u128)
        ensures
            final(self).latest() == later_of(old(self).latest(), time),
            final(self).started() == old(self).started(),
    {
        if self.latest < time {
            self.latest = time;
        }
    }

    /// Tells the clock of several times.
    pub(crate) fn tell_all(&mut self, times: &Vec<u128>)
        ensures
            final(self).latest() == latest_of(old(self).latest(), times@),
            final(self).started() == old(self).started(),
    {
        let mut i: usize = 0;
        while i < times.len()
            invariant
                i <= times@.len(),
                self.latest() == latest_of(old(self).latest(), times@.take(i as int)),
                self.started() == old(self).started(),
            decreases times.len() - i,
        {
            assert(times@.take(i + 1).drop_last() == times@.take(i as int));
            self.tell(times[i]);
            i += 1;
        }
        assert(times@.take(i as int) == times@);
    }
}

/// The time from `earlier` to `later`, and zero where `earlier` is the later
/// of the two.
pub open spec fn spec_time_since(later: u128, earlier: u128) -> u128 {
    if later >= earlier {
        (later - earlier) as u128
    } else {
        0
    }
}

/// The time from `earlier` to `later`, and zero where `earlier` is the later
/// of the two.
pub fn time_since(later: u128, earlier: u128) -> (nanos: u128)
    ensures
        nanos == spec_time_since(later, earlier),
{
    if later >= earlier {
        later - earlier
    } else {
        0
    }
}

} // verus!
