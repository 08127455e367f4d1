//! Listings of resident copies: what can be read off a walk through a map
//! whose order is not specified.

use vstd::prelude::*;
use crate::indexer::age_key::AgeKey;
use crate::indexer::age_model::{counts_by_worker, held_by, resident_ages, resident_hashes};
use crate::indexer::clock::spec_time_since;
use crate::protocols::{ResidencyOwner, WorkerWithDpRank};

verus! {

/// Whether `entries` lists each resident copy once, with its time.
pub open spec fn lists(entries: Seq<(AgeKey, u128)>, resident: Map<AgeKey, u128>) -> bool {
    &&& forall|i: int, j: int|
        0 <= i < j < entries.len() ==> (#[trigger] entries[i]).0 != (#[trigger] entries[j]).0
    &&& forall|i: int|
        0 <= i < entries.len() ==> resident.contains_key((#[trigger] entries[i]).0)
            && resident[entries[i].0] == entries[i].1
    &&& forall|key: AgeKey| #[trigger]
        resident.contains_key(key) ==> entries.contains((key, resident[key]))
}

/// The copies listed.
pub open spec fn listed(entries: Seq<(AgeKey, u128)>) -> Map<AgeKey, u128>
    decreases entries.len(),
{
    if entries.len() == 0 {
        Map::empty()
    } else {
        listed(entries.drop_last()).insert(entries.last().0, entries.last().1)
    }
}

/// What the first `n` entries of a listing list: they are `n` copies, and the
/// next entry is none of them.
pub proof fn lemma_listed_prefix(
    entries: Seq<(AgeKey, u128)>,
    resident: Map<AgeKey, u128>,
    n: int,
)
    requires
        lists(entries, resident),
        0 <= n <= entries.len(),
    ensures
        listed(entries.take(n)).dom().finite(),
        listed(entries.take(n)).len() == n,
        forall|key: AgeKey| #[trigger]
            listed(entries.take(n)).contains_key(key) <==> exists|i: int|
                0 <= i < n && (#[trigger] entries[i]).0 == key,
        forall|key: AgeKey| #[trigger]
            listed(entries.take(n)).contains_key(key) ==> listed(entries.take(n))[key]
                == resident[key],
        n < entries.len() ==> {
            &&& !listed(entries.take(n)).contains_key(entries[n].0)
            &&& listed(entries.take(n + 1)) == listed(entries.take(n)).insert(
                entries[n].0,
                entries[n].1,
            )
        },
    decreases n,
{
    if n > 0 {
        lemma_listed_prefix(entries, resident, n - 1);
        assert(entries.take(n).drop_last() == entries.take(n - 1));
    }
    if n < entries.len() {
        assert(entries.take(n + 1).drop_last() == entries.take(n));
    }
}

/// A full listing lists what is resident.
pub proof fn lemma_listed_all(entries: Seq<(AgeKey, u128)>, resident: Map<AgeKey, u128>)
    requires
        lists(entries, resident),
    ensures
        listed(entries) == resident,
{
    lemma_listed_prefix(entries, resident, entries.len() as int);
    assert(entries.take(entries.len() as int) == entries);
    assert forall|key: AgeKey| resident.contains_key(key) <==> #[trigger] listed(
        entries,
    ).contains_key(key) by {
        if resident.contains_key(key) {
            let i = entries.index_of((key, resident[key]));
            assert(entries[i].0 == key);
        }
    }
    assert(listed(entries) =~= resident);
}

/// One resident copy more adds one to the count of the worker that holds it,
/// and to no count where a cache owner holds it.
pub proof fn lemma_counts_step(resident: Map<AgeKey, u128>, key: AgeKey, time: u128)
    requires
        resident.dom().finite(),
        !resident.contains_key(key),
    ensures
        match key.owner {
            ResidencyOwner::Worker(worker) => {
                let counts = counts_by_worker(resident);
                &&& counts_by_worker(resident.insert(key, time)) == counts.insert(
                    worker,
                    if counts.contains_key(worker) {
                        counts[worker] + 1
                    } else {
                        1
                    },
                )
                &&& counts.contains_key(worker) ==> counts[worker] <= resident.len()
            },
            ResidencyOwner::CacheOwner(_) => counts_by_worker(resident.insert(key, time))
                == counts_by_worker(resident),
        },
{
    let more = resident.insert(key, time);
    assert forall|worker: WorkerWithDpRank|
        if key.owner == ResidencyOwner::Worker(worker) {
            &&& held_by(more, worker) == held_by(resident, worker).insert(key)
            &&& held_by(more, worker).len() == held_by(resident, worker).len() + 1
            &&& held_by(resident, worker).len() <= resident.len()
            &&& held_by(resident, worker).is_empty() ==> held_by(resident, worker).len() == 0
        } else {
            #[trigger] held_by(more, worker) == held_by(resident, worker)
        } by {
        assert(held_by(resident, worker).subset_of(resident.dom()));
        vstd::set_lib::lemma_len_subset(held_by(resident, worker), resident.dom());
        if key.owner == ResidencyOwner::Worker(worker) {
            assert(held_by(more, worker) =~= held_by(resident, worker).insert(key));
            assert(held_by(resident, worker).is_empty() ==> held_by(resident, worker) =~= Set::<
                AgeKey,
            >::empty());
        } else {
            assert(held_by(more, worker) =~= held_by(resident, worker));
        }
    }
    match key.owner {
        ResidencyOwner::Worker(worker) => {
            let counts = counts_by_worker(resident);
            assert(held_by(more, worker).contains(key));
            assert(counts_by_worker(more) =~= counts.insert(
                worker,
                if counts.contains_key(worker) {
                    counts[worker] + 1
                } else {
                    1
                },
            ));
        },
        ResidencyOwner::CacheOwner(_) => {
            assert(counts_by_worker(more) =~= counts_by_worker(resident));
        },
    }
}

/// One resident copy more adds its block to the resident blocks.
pub proof fn lemma_hashes_step(resident: Map<AgeKey, u128>, key: AgeKey, time: u128)
    requires
        !resident.contains_key(key),
    ensures
        resident_hashes(resident.insert(key, time)) == resident_hashes(resident).insert(
            key.block_hash.0,
        ),
{
    let more = resident.insert(key, time);
    assert forall|hash: u64| resident_hashes(more).contains(hash) <==> #[trigger] resident_hashes(
        resident,
    ).insert(key.block_hash.0).contains(hash) by {
        if resident_hashes(resident).contains(hash) {
            let k = choose|k: AgeKey| #[trigger]
                resident.contains_key(k) && k.block_hash.0 == hash;
            assert(more.contains_key(k));
        }
        if hash == key.block_hash.0 {
            assert(more.contains_key(key));
        }
        if resident_hashes(more).contains(hash) && hash != key.block_hash.0 {
            let k = choose|k: AgeKey| #[trigger] more.contains_key(k) && k.block_hash.0 == hash;
            assert(resident.contains_key(k));
        }
    }
    assert(resident_hashes(more) =~= resident_hashes(resident).insert(key.block_hash.0));
}

/// Walking a finite set meets each of its elements once.
pub proof fn lemma_to_seq<A>(set: Set<A>)
    requires
        set.finite(),
    ensures
        set.to_seq().no_duplicates(),
        set.to_seq().to_set() == set,
        set.to_seq().len() == set.len(),
    decreases set.len(),
{
    set.lemma_to_seq_to_set_id();
    if set.len() != 0 {
        let first = set.choose();
        let rest = set.remove(first);
        lemma_to_seq(rest);
        assert(!rest.to_seq().contains(first)) by {
            if rest.to_seq().contains(first) {
                assert(rest.to_seq().to_set().contains(first));
            }
        }
        assert(set.to_seq() == Seq::empty().push(first) + rest.to_seq());
    }
}

/// Two walks through the same set meet the same values, as often.
pub proof fn lemma_walks_agree<A, B>(a: Seq<A>, b: Seq<A>, f: spec_fn(A) -> B)
    requires
        a.no_duplicates(),
        b.no_duplicates(),
        a.to_set() == b.to_set(),
    ensures
        a.map_values(f).to_multiset() == b.map_values(f).to_multiset(),
    decreases a.len(),
{
    broadcast use vstd::seq_lib::group_to_multiset_ensures;

    if a.len() == 0 {
        assert(b.len() == 0) by {
            if b.len() > 0 {
                assert(b.to_set().contains(b[0]));
                assert(a.contains(b[0]));
            }
        }
        assert(a.map_values(f) =~= b.map_values(f));
    } else {
        let last = a.last();
        let shorter_a = a.drop_last();
        assert(a.to_set().contains(last)) by {
            assert(a[a.len() - 1] == last);
        }
        assert(b.contains(last));
        let j = b.index_of(last);
        let shorter_b = b.remove(j);
        assert(shorter_a.to_set() =~= shorter_b.to_set()) by {
            assert forall|x: A| shorter_a.contains(x) <==> #[trigger] shorter_b.contains(x) by {
                if shorter_a.contains(x) {
                    let i = shorter_a.index_of(x);
                    assert(a[i] == x);
                    assert(a.to_set().contains(x));
                    assert(b.contains(x));
                    let k = b.index_of(x);
                    assert(k != j);
                    if k < j {
                        assert(shorter_b[k] == x);
                    } else {
                        assert(shorter_b[k - 1] == x);
                    }
                }
                if shorter_b.contains(x) {
                    let k = shorter_b.index_of(x);
                    let k2 = if k < j {
                        k
                    } else {
                        k + 1
                    };
                    assert(b[k2] == x);
                    assert(b.to_set().contains(x));
                    assert(a.contains(x));
                    let i = a.index_of(x);
                    assert(i != a.len() - 1);
                    assert(shorter_a[i] == x);
                }
            }
        }
        assert forall|p: int, q: int|
            0 <= p < shorter_b.len() && 0 <= q < shorter_b.len() && p != q implies shorter_b[p]
            != shorter_b[q] by {
            let p2 = if p < j {
                p
            } else {
                p + 1
            };
            let q2 = if q < j {
                q
            } else {
                q + 1
            };
            assert(b[p2] != b[q2]);
        }
        lemma_walks_agree(shorter_a, shorter_b, f);
        assert(a.map_values(f) =~= shorter_a.map_values(f).push(f(last)));
        assert(b.map_values(f).remove(j) =~= shorter_b.map_values(f));
        assert(b.map_values(f)[j] == f(last));
        vstd::seq_lib::to_multiset_remove(b.map_values(f), j);
        assert(b.map_values(f).to_multiset().count(f(last)) > 0) by {
            assert(b.map_values(f).contains(f(last)));
        }
        assert(b.map_values(f).to_multiset() =~= shorter_b.map_values(f).to_multiset().insert(
            f(last),
        ));
    }
}

/// The ages read off a listing are those of the resident copies.
pub proof fn lemma_listed_ages(
    entries: Seq<(AgeKey, u128)>,
    resident: Map<AgeKey, u128>,
    now: u128,
    ages: Seq<u128>,
)
    requires
        lists(entries, resident),
        ages.len() == entries.len(),
        forall|i: int|
            0 <= i < ages.len() ==> #[trigger] ages[i] == spec_time_since(now, entries[i].1),
    ensures
        resident.dom().finite(),
        ages.to_multiset() == resident_ages(resident, now).to_multiset(),
        resident_ages(resident, now).len() == resident.len(),
{
    lemma_listed_all(entries, resident);
    lemma_listed_prefix(entries, resident, entries.len() as int);
    assert(entries.take(entries.len() as int) == entries);
    lemma_to_seq(resident.dom());
    let keys = entries.map_values(|entry: (AgeKey, u128)| entry.0);
    let age = |key: AgeKey| spec_time_since(now, resident[key]);
    assert(keys.to_set() =~= resident.dom()) by {
        assert forall|key: AgeKey| keys.contains(key) <==> #[trigger] resident.contains_key(
            key,
        ) by {
            if keys.contains(key) {
                let i = keys.index_of(key);
                assert(entries[i].0 == key);
            }
            if resident.contains_key(key) {
                let i = entries.index_of((key, resident[key]));
                assert(keys[i] == key);
            }
        }
    }
    assert(keys.no_duplicates()) by {
        assert forall|i: int, j: int|
            0 <= i < keys.len() && 0 <= j < keys.len() && i != j implies keys[i] != keys[j] by {
            assert(keys[i] == entries[i].0 && keys[j] == entries[j].0);
        }
    }
    lemma_walks_agree(keys, resident.dom().to_seq(), age);
    assert(ages =~= keys.map_values(age)) by {
        assert forall|i: int| 0 <= i < ages.len() implies ages[i] == #[trigger] keys.map_values(
            age,
        )[i] by {
            assert(resident[entries[i].0] == entries[i].1);
        }
    }
}

} // verus!
