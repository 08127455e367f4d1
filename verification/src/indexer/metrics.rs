//! Lifetime samples, by storage tier.

use vstd::prelude::*;
use crate::protocols::StorageTier;

verus! {

/// How long a block was resident, and the label of the tier that held it.
#[derive(Clone, Copy, Debug)]
pub struct LifetimeSample {
    pub tier_label: &'static str,
    pub nanos: u128,
}

impl View for LifetimeSample {
    type V = (Seq<char>, u128);

    open spec fn view(&self) -> (Seq<char>, u128) {
        (self.tier_label@, self.nanos)
    }
}

/// The label under which a tier's samples are recorded.
pub open spec fn spec_tier_label(tier: StorageTier) -> Seq<char> {
    match tier {
        StorageTier::Device => "device"@,
        StorageTier::HostPinned => "host_pinned"@,
        StorageTier::Disk => "disk"@,
        StorageTier::External => "external"@,
    }
}

pub fn tier_label(tier: StorageTier) -> (label: &'static str)
    ensures
        label@ == spec_tier_label(tier),
{
    match tier {
        StorageTier::Device => "device",
        StorageTier::HostPinned => "host_pinned",
        StorageTier::Disk => "disk",
        StorageTier::External => "external",
    }
}

/// Each tier has a label of its own.
pub proof fn lemma_tier_labels_are_distinct(a: StorageTier, b: StorageTier)
    ensures
        spec_tier_label(a) == spec_tier_label(b) <==> a == b,
{
    reveal_strlit("device");
    reveal_strlit("host_pinned");
    reveal_strlit("disk");
    reveal_strlit("external");
    assert("device"@[0] == 'd' && "device"@[1] == 'e');
    assert("host_pinned"@[0] == 'h');
    assert("disk"@[0] == 'd' && "disk"@[1] == 'i');
    assert("external"@[0] == 'e');
}

/// The samples for lifetimes that end on one tier.
pub open spec fn samples(tier: StorageTier, lifetimes: Seq<u128>) -> Seq<(Seq<char>, u128)> {
    lifetimes.map_values(|nanos: u128| (spec_tier_label(tier), nanos))
}

/// The lifetime samples recorded so far.
pub struct KvIndexerMetrics {
    block_lifetimes: Vec<LifetimeSample>,
}

impl View for KvIndexerMetrics {
    type V = Seq<(Seq<char>, u128)>;

    closed spec fn view(&self) -> Seq<(Seq<char>, u128)> {
        self.block_lifetimes@.map_values(|sample: LifetimeSample| sample@)
    }
}

impl KvIndexerMetrics {
    pub fn new_unregistered() -> (metrics: Self)
        ensures
            metrics@ == Seq::<(Seq<char>, u128)>::empty(),
    {
        KvIndexerMetrics { block_lifetimes: Vec::new() }
    }

    /// Records one lifetime.
    pub fn observe_block_lifetime(&mut self, tier_label: &'static str, nanos: u128)
        ensures
            final(self)@ == old(self)@.push((tier_label@, nanos)),
    {
        self.block_lifetimes.push(LifetimeSample { tier_label, nanos });
    }

    /// How many samples carry the given label.
    pub fn block_lifetime_sample_count(&self, tier_label: &str) -> (count: usize)
        ensures
            count == self@.filter(|sample: (Seq<char>, u128)| sample.0 == tier_label@).len(),
    {
        let ghost carries = |sample: (Seq<char>, u128)| sample.0 == tier_label@;
        let wanted: String = tier_label.to_owned();
        let mut count: usize = 0;
        let mut i: usize = 0;
        while i < self.block_lifetimes.len()
            invariant
                i <= self.block_lifetimes@.len(),
                count <= i,
                wanted@ == tier_label@,
                carries == |sample: (Seq<char>, u128)| sample.0 == tier_label@,
                count == self@.take(i as int).filter(carries).len(),
            decreases self.block_lifetimes.len() - i,
        {
            proof {
                reveal(Seq::filter);
                assert(self@.take(i + 1).drop_last() == self@.take(i as int));
                assert(self@.take(i + 1).last() == self.block_lifetimes@[i as int]@);
            }
            if self.block_lifetimes[i].tier_label.to_owned() == wanted {
                count += 1;
            }
            i += 1;
        }
        assert(self@.take(i as int) == self@);
        count
    }

    /// Hands out the samples recorded so far and starts over.
    pub fn take_block_lifetimes(&mut self) -> (taken: Vec<LifetimeSample>)
        ensures
            taken@.map_values(|sample: LifetimeSample| sample@) == old(self)@,
            final(self)@ == Seq::<(Seq<char>, u128)>::empty(),
    {
        let mut taken: Vec<LifetimeSample> = Vec::new();
        std::mem::swap(&mut taken, &mut self.block_lifetimes);
        taken
    }
}

/// Each lifetime becomes one sample, in the order given, under the label of
/// the tier.
pub proof fn lemma_samples_are_the_lifetimes(
    tier: StorageTier,
    lifetimes: Seq<u128>,
    sample: LifetimeSample,
)
    ensures
        spec_tier_label(StorageTier::Device) == "device"@,
        spec_tier_label(StorageTier::HostPinned) == "host_pinned"@,
        spec_tier_label(StorageTier::Disk) == "disk"@,
        spec_tier_label(StorageTier::External) == "external"@,
        samples(tier, lifetimes).len() == lifetimes.len(),
        forall|i: int|
            0 <= i < lifetimes.len() ==> #[trigger] samples(tier, lifetimes)[i].1 == lifetimes[i]
                && samples(tier, lifetimes)[i].0 == spec_tier_label(tier),
        sample@.0 == sample.tier_label@,
        sample@.1 == sample.nanos,
{
}

} // verus!
