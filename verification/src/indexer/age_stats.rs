//! Order statistics of ages.

use vstd::prelude::*;

verus! {

/// The smallest, median, 99th-percentile and largest of a number of ages, in
/// nanoseconds.
#[derive(Clone, Copy, Debug, PartialEq, Eq, Structural)]
pub struct AgeStats {
    pub min: u128,
    pub p50: u128,
    pub p99: u128,
    pub max: u128,
}

/// The order in which ages are ranked.
pub open spec fn no_older() -> spec_fn(u128, u128) -> bool {
    |a: u128, b: u128| a <= b
}

/// The ages from the youngest to the oldest.
pub open spec fn ranked(ages: Seq<u128>) -> Seq<u128> {
    ages.sort_by(no_older())
}

/// The rank, from zero, of a percentile among `n` ranked ages.
pub open spec fn spec_percentile_rank(n: nat, percent: nat) -> int {
    let rank = n * percent / 100;
    if rank < n {
        rank as int
    } else {
        n - 1
    }
}

/// The statistics of a number of ages. There are none of no ages.
pub open spec fn spec_age_stats(ages: Seq<u128>) -> Option<AgeStats> {
    let n = ages.len();
    if n == 0 {
        None
    } else {
        Some(
            AgeStats {
                min: ranked(ages)[0],
                p50: ranked(ages)[spec_percentile_rank(n, 50)],
                p99: ranked(ages)[spec_percentile_rank(n, 99)],
                max: ranked(ages)[n - 1],
            },
        )
    }
}

/// The rank, from zero, of a percentile among `n` ranked ages.
pub fn percentile_rank(n: usize, percent: u8) -> (rank: usize)
    requires
        n > 0,
    ensures
        rank == spec_percentile_rank(n as nat, percent as nat),
        rank < n,
{
    assert(n * percent <= 0xffff_ffff_ffff_ffff * 255) by (nonlinear_arith)
        requires
            n <= 0xffff_ffff_ffff_ffff,
            percent <= 255,
    ;
    let rank: u128 = (n as u128) * (percent as u128) / 100;
    if rank < n as u128 {
        rank as usize
    } else {
        n - 1
    }
}

/// `<[u128]>::sort`: puts the ages in ascending order, and neither adds nor
/// drops one.
#[verifier::external_body]
fn sort(ages: &mut Vec<u128>)
    ensures
        vstd::relations::sorted_by(final(ages)@, no_older()),
        final(ages)@.to_multiset() == old(ages)@.to_multiset(),
{
    ages.sort();
}

/// Ages that are in order and are the given ones are the given ones ranked.
proof fn lemma_ranked_is_unique(ages: Seq<u128>, sorted: Seq<u128>)
    requires
        vstd::relations::sorted_by(sorted, no_older()),
        sorted.to_multiset() == ages.to_multiset(),
    ensures
        sorted == ranked(ages),
        sorted.len() == ages.len(),
{
    ages.lemma_sort_by_ensures(no_older());
    vstd::seq_lib::lemma_sorted_unique(sorted, ranked(ages), no_older());
    sorted.to_multiset_ensures();
    ages.to_multiset_ensures();
}

/// The statistics of a number of ages.
pub fn age_stats(ages: Vec<u128>) -> (stats: Option<AgeStats>)
    ensures
        stats == spec_age_stats(ages@),
{
    let n = ages.len();
    if n == 0 {
        return None;
    }
    let mut sorted = ages;
    sort(&mut sorted);
    proof {
        lemma_ranked_is_unique(ages@, sorted@);
    }
    Some(
        AgeStats {
            min: sorted[0],
            p50: sorted[percentile_rank(n, 50)],
            p99: sorted[percentile_rank(n, 99)],
            max: sorted[n - 1],
        },
    )
}

/// The statistics depend on which ages there are, not on the order in which
/// they are given.
pub proof fn lemma_stats_ignore_order(a: Seq<u128>, b: Seq<u128>)
    requires
        a.to_multiset() == b.to_multiset(),
    ensures
        spec_age_stats(a) == spec_age_stats(b),
{
    b.lemma_sort_by_ensures(no_older());
    lemma_ranked_is_unique(a, ranked(b));
    lemma_ranked_is_unique(b, ranked(b));
}

/// The statistics are ordered, and each of them is one of the ages. No age is
/// below the smallest or above the largest.
pub proof fn lemma_stats_are_ordered(ages: Seq<u128>)
    requires
        ages.len() > 0,
    ensures
        spec_age_stats(ages) matches Some(stats) && {
            &&& stats.min <= stats.p50 <= stats.p99 <= stats.max
            &&& ages.contains(stats.min)
            &&& ages.contains(stats.p50)
            &&& ages.contains(stats.p99)
            &&& ages.contains(stats.max)
            &&& forall|i: int| 0 <= i < ages.len() ==> stats.min <= #[trigger] ages[i] <= stats.max
        },
{
    ages.lemma_sort_by_ensures(no_older());
    let sorted = ranked(ages);
    lemma_ranked_is_unique(ages, sorted);
    let n = ages.len();
    let low = spec_percentile_rank(n, 50);
    let high = spec_percentile_rank(n, 99);
    assert(0 <= low <= high < n);
    assert(no_older()(sorted[0], sorted[low]) || low == 0);
    assert(no_older()(sorted[low], sorted[high]) || low == high);
    assert(no_older()(sorted[high], sorted[n - 1]) || high == n - 1);
    assert forall|i: int| 0 <= i < n implies ages.contains(#[trigger] sorted[i]) by {
        assert(sorted.contains(sorted[i]));
    }
    assert forall|i: int| 0 <= i < n implies sorted[0] <= #[trigger] ages[i] <= sorted[n - 1] by {
        ages.to_multiset_ensures();
        sorted.to_multiset_ensures();
        assert(ages.contains(ages[i]));
        assert(sorted.to_multiset().count(ages[i]) > 0);
        assert(sorted.contains(ages[i]));
        let j = sorted.index_of(ages[i]);
        assert(no_older()(sorted[0], sorted[j]) || j == 0);
        assert(no_older()(sorted[j], sorted[n - 1]) || j == n - 1);
    }
}

/// How many values have a property depends on which there are, not on their
/// order.
proof fn lemma_count_ignores_order(values: Seq<u128>, p: spec_fn(u128) -> bool)
    ensures
        values.filter(p).len() == values.to_multiset().filter(p).len(),
    decreases values.len(),
{
    broadcast use vstd::seq_lib::group_to_multiset_ensures;
    broadcast use vstd::multiset::group_multiset_axioms;

    reveal(Seq::filter);
    if values.len() == 0 {
        assert(values.to_multiset().filter(p) =~= vstd::multiset::Multiset::empty());
    } else {
        let shorter = values.drop_last();
        lemma_count_ignores_order(shorter, p);
        assert(values == shorter.push(values.last()));
        assert(values.to_multiset() =~= shorter.to_multiset().insert(values.last()));
        if p(values.last()) {
            assert(values.to_multiset().filter(p) =~= shorter.to_multiset().filter(p).insert(
                values.last(),
            ));
        } else {
            assert(values.to_multiset().filter(p) =~= shorter.to_multiset().filter(p));
        }
    }
}

/// Where all values of a stretch have a property, at least so many have it.
proof fn lemma_count_of_a_stretch(
    values: Seq<u128>,
    p: spec_fn(u128) -> bool,
    start: int,
    end: int,
)
    requires
        0 <= start <= end <= values.len(),
        forall|i: int| start <= i < end ==> p(#[trigger] values[i]),
    ensures
        end - start <= values.filter(p).len() <= values.len(),
    decreases values.len(),
{
    reveal(Seq::filter);
    if values.len() > 0 {
        let shorter = values.drop_last();
        if end == values.len() && start < end {
            assert(p(values[end - 1]));
            lemma_count_of_a_stretch(shorter, p, start, end - 1);
        } else if end == values.len() {
            lemma_count_of_a_stretch(shorter, p, 0, 0);
        } else {
            lemma_count_of_a_stretch(shorter, p, start, end);
        }
    }
}

/// How many of the given ages lie on each side of the one at a rank.
proof fn lemma_rank_splits_the_ages(ages: Seq<u128>, rank: int)
    requires
        0 <= rank < ages.len(),
    ensures
        ages.filter(|age: u128| age <= ranked(ages)[rank]).len() > rank,
        ages.filter(|age: u128| age >= ranked(ages)[rank]).len() >= ages.len() - rank,
{
    let sorted = ranked(ages);
    let low = |age: u128| age <= sorted[rank];
    let high = |age: u128| age >= sorted[rank];
    ages.lemma_sort_by_ensures(no_older());
    lemma_ranked_is_unique(ages, sorted);
    lemma_count_ignores_order(ages, low);
    lemma_count_ignores_order(ages, high);
    lemma_count_ignores_order(sorted, low);
    lemma_count_ignores_order(sorted, high);
    assert forall|i: int| 0 <= i < rank + 1 implies low(#[trigger] sorted[i]) by {
        assert(no_older()(sorted[i], sorted[rank]) || i == rank);
    }
    assert forall|i: int| rank <= i < sorted.len() implies high(#[trigger] sorted[i]) by {
        assert(no_older()(sorted[rank], sorted[i]) || i == rank);
    }
    lemma_count_of_a_stretch(sorted, low, 0, rank + 1);
    lemma_count_of_a_stretch(sorted, high, rank, sorted.len() as int);
}

/// The percentiles divide the ages. Of `n` ages, more than `n * 50 / 100` are
/// no more than the median and at least the rest are no less, and in the same
/// way with 99 for the 99th percentile. No age is below the smallest or above
/// the largest, and some age is no more than the smallest and some no less
/// than the largest.
pub proof fn lemma_percentiles_split_the_ages(ages: Seq<u128>)
    requires
        ages.len() > 0,
    ensures
        spec_age_stats(ages) matches Some(stats) && {
            let n = ages.len();
            &&& ages.filter(|age: u128| age <= stats.p50).len() > n * 50 / 100
            &&& ages.filter(|age: u128| age >= stats.p50).len() >= n - n * 50 / 100
            &&& ages.filter(|age: u128| age <= stats.p99).len() > n * 99 / 100
            &&& ages.filter(|age: u128| age >= stats.p99).len() >= n - n * 99 / 100
            &&& ages.filter(|age: u128| age >= stats.min).len() == n
            &&& ages.filter(|age: u128| age <= stats.max).len() == n
            &&& ages.filter(|age: u128| age <= stats.min).len() > 0
            &&& ages.filter(|age: u128| age >= stats.max).len() > 0
        },
{
    let n = ages.len();
    let stats = spec_age_stats(ages)->0;
    lemma_rank_splits_the_ages(ages, n as int * 50 / 100);
    lemma_rank_splits_the_ages(ages, n as int * 99 / 100);
    lemma_rank_splits_the_ages(ages, 0);
    lemma_rank_splits_the_ages(ages, n - 1);
    lemma_count_of_a_stretch(ages, |age: u128| age >= stats.min, 0, 0);
    lemma_count_of_a_stretch(ages, |age: u128| age <= stats.max, 0, 0);
}

/// A percentile's rank is as far along as the percentage says, rounded down,
/// and the last rank from a hundred percent on.
pub proof fn lemma_percentile_rank(n: nat, percent: nat)
    requires
        n > 0,
    ensures
        percent < 100 ==> spec_percentile_rank(n, percent) * 100 <= n * percent < (
        spec_percentile_rank(n, percent) + 1) * 100,
        percent >= 100 ==> spec_percentile_rank(n, percent) == n - 1,
{
    if percent < 100 {
        assert(n * percent / 100 < n) by (nonlinear_arith)
            requires
                percent < 100,
                n > 0,
        ;
    } else {
        assert(n * percent / 100 >= n) by (nonlinear_arith)
            requires
                percent >= 100,
        ;
    }
}

} // verus!
