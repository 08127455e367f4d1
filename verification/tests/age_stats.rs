use kv_router::indexer::age_stats::{age_stats, percentile_rank, AgeStats};
use kv_router::indexer::clock::time_since;

#[test]
fn no_ages_have_no_statistics() {
    assert_eq!(age_stats(vec![]), None);
}

#[test]
fn statistics_of_unordered_ages() {
    assert_eq!(
        age_stats(vec![30, 10, 50, 20, 40]),
        Some(AgeStats { min: 10, p50: 30, p99: 50, max: 50 })
    );
    assert_eq!(
        age_stats(vec![2, 1]),
        Some(AgeStats { min: 1, p50: 2, p99: 2, max: 2 })
    );
    assert_eq!(
        age_stats(vec![5, 5, 5]),
        Some(AgeStats { min: 5, p50: 5, p99: 5, max: 5 })
    );
}

#[test]
fn statistics_ignore_the_order_of_the_ages() {
    let up: Vec<u128> = (0..1000).collect();
    let down: Vec<u128> = (0..1000).rev().collect();
    assert_eq!(age_stats(up), age_stats(down.clone()));
    assert_eq!(age_stats(down), Some(AgeStats { min: 0, p50: 500, p99: 990, max: 999 }));
}

#[test]
fn ranks_agree_with_fractions_of_the_count() {
    for n in (1..200_000usize).chain([1 << 31, (1 << 40) + 99, 100 << 30]) {
        for (percent, fraction) in [(50u8, 0.50f64), (99, 0.99)] {
            let expected = ((fraction * n as f64) as usize).min(n - 1);
            assert_eq!(percentile_rank(n, percent), expected, "{percent} of {n}");
        }
    }
}

#[test]
fn ranks_stay_below_the_count() {
    assert_eq!(percentile_rank(10, 100), 9);
    assert_eq!(percentile_rank(usize::MAX, 255), usize::MAX - 1);
    assert_eq!(percentile_rank(1, 0), 0);
}

#[test]
fn time_does_not_run_backwards() {
    assert_eq!(time_since(10, 3), 7);
    assert_eq!(time_since(3, 10), 0);
    assert_eq!(time_since(u128::MAX, 0), u128::MAX);
}
