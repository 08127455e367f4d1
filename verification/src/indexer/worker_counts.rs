//! Block counts by worker rank.

use vstd::prelude::*;
use std::collections::HashMap;
use crate::protocols::WorkerWithDpRank;

verus! {

broadcast use vstd::std_specs::hash::group_hash_axioms;

/// The integer that stands for a worker rank in the index.
spec fn spec_worker_code(worker: WorkerWithDpRank) -> u128 {
    (worker.worker_id * 0x1_0000_0000 + worker.dp_rank) as u128
}

fn worker_code(worker: WorkerWithDpRank) -> (code: u128)
    ensures
        code == spec_worker_code(worker),
{
    (worker.worker_id as u128) * 0x1_0000_0000 + worker.dp_rank as u128
}

/// No two worker ranks share a code.
proof fn lemma_worker_code_is_injective(a: WorkerWithDpRank, b: WorkerWithDpRank)
    ensures
        spec_worker_code(a) == spec_worker_code(b) <==> a == b,
{
}

/// How many blocks each worker rank holds. The view maps the worker ranks
/// that hold any to how many they hold.
pub struct WorkerBlockCounts {
    counts: Vec<(WorkerWithDpRank, usize)>,
    positions: HashMap<u128, usize>,
}

impl View for WorkerBlockCounts {
    type V = Map<WorkerWithDpRank, nat>;

    closed spec fn view(&self) -> Map<WorkerWithDpRank, nat> {
        Map::new(
            |worker: WorkerWithDpRank| self.positions@.contains_key(spec_worker_code(worker)),
            |worker: WorkerWithDpRank|
                self.counts@[self.positions@[spec_worker_code(worker)] as int].1 as nat,
        )
    }
}

impl WorkerBlockCounts {
    /// The index leads from each counted worker rank to its count and from
    /// nowhere else.
    pub closed spec fn wf(&self) -> bool {
        &&& forall|i: int|
            0 <= i < self.counts@.len() ==> self.positions@.contains_key(
                spec_worker_code((#[trigger] self.counts@[i]).0),
            ) && self.positions@[spec_worker_code(self.counts@[i].0)] == i
        &&& forall|code: u128| #[trigger]
            self.positions@.contains_key(code) ==> self.positions@[code] < self.counts@.len()
                && spec_worker_code(self.counts@[self.positions@[code] as int].0) == code
    }

    pub(crate) fn new() -> (counts: Self)
        ensures
            counts.wf(),
            counts@ == Map::<WorkerWithDpRank, nat>::empty(),
    {
        let counts = WorkerBlockCounts { counts: Vec::new(), positions: HashMap::new() };
        assert(counts@ =~= Map::<WorkerWithDpRank, nat>::empty());
        counts
    }

    /// Counts one block more for a worker rank.
    pub(crate) fn add(&mut self, worker: WorkerWithDpRank)
        requires
            old(self).wf(),
            old(self)@.contains_key(worker) ==> old(self)@[worker] < usize::MAX,
        ensures
            final(self).wf(),
            final(self)@ == old(self)@.insert(
                worker,
                if old(self)@.contains_key(worker) {
                    old(self)@[worker] + 1
                } else {
                    1
                },
            ),
    {
        let code = worker_code(worker);
        let found: Option<usize> = match self.positions.get(&code) {
            Some(position) => Some(*position),
            None => None,
        };
        match found {
            Some(position) => {
                let count: usize = self.counts[position].1;
                self.counts.set(position, (worker, count + 1));
            },
            None => {
                self.positions.insert(code, self.counts.len());
                self.counts.push((worker, 1));
            },
        }
        proof {
            assert forall|other: WorkerWithDpRank| spec_worker_code(other) == code implies other
                == worker by {
                lemma_worker_code_is_injective(other, worker);
            }
            assert(self@ =~= old(self)@.insert(
                worker,
                if old(self)@.contains_key(worker) {
                    old(self)@[worker] + 1
                } else {
                    1
                },
            ));
        }
    }

    /// The count of a worker rank, if it holds any block.
    pub fn get(&self, worker: &WorkerWithDpRank) -> (count: Option<usize>)
        requires
            self.wf(),
        ensures
            match count {
                Some(count) => self@.contains_key(*worker) && self@[*worker] == count,
                None => !self@.contains_key(*worker),
            },
    {
        match self.positions.get(&worker_code(*worker)) {
            Some(position) => Some(self.counts[*position].1),
            None => None,
        }
    }

    /// How many worker ranks hold a block.
    pub fn len(&self) -> (len: usize)
        requires
            self.wf(),
        ensures
            self@.dom().finite(),
            len == self@.len(),
    {
        proof {
            self.lemma_entries();
        }
        self.counts.len()
    }

    /// The worker ranks that hold a block, with their counts.
    pub fn entries(&self) -> (entries: &Vec<(WorkerWithDpRank, usize)>)
        requires
            self.wf(),
        ensures
            forall|i: int, j: int|
                0 <= i < j < entries@.len() ==> (#[trigger] entries@[i]).0 != (#[trigger] entries@[j]).0,
            forall|i: int|
                0 <= i < entries@.len() ==> self@.contains_key((#[trigger] entries@[i]).0)
                    && self@[entries@[i].0] == entries@[i].1,
            entries@.len() == self@.len(),
    {
        proof {
            self.lemma_entries();
        }
        &self.counts
    }

    proof fn lemma_entries(&self)
        requires
            self.wf(),
        ensures
            self@.dom().finite(),
            self@.len() == self.counts@.len(),
    {
        let workers = self.counts@.map_values(|entry: (WorkerWithDpRank, usize)| entry.0);
        assert forall|i: int, j: int|
            0 <= i < workers.len() && 0 <= j < workers.len() && i != j implies workers[i]
            != workers[j] by {
            assert(self.positions@[spec_worker_code(self.counts@[i].0)] == i);
            assert(self.positions@[spec_worker_code(self.counts@[j].0)] == j);
        }
        assert(workers.to_set() =~= self@.dom()) by {
            assert forall|worker: WorkerWithDpRank| self@.dom().contains(
                worker,
            ) implies workers.to_set().contains(worker) by {
                let position = self.positions@[spec_worker_code(worker)] as int;
                lemma_worker_code_is_injective(self.counts@[position].0, worker);
                assert(workers[position] == worker);
            }
            assert forall|worker: WorkerWithDpRank| workers.to_set().contains(
                worker,
            ) implies self@.dom().contains(worker) by {
                let i = workers.index_of(worker);
                assert(self.counts@[i].0 == worker);
            }
        }
        workers.unique_seq_to_set();
    }
}

} // verus!
