//! How much of an index is distinct content, and how much is further copies
//! of it.

use vstd::prelude::*;
use std::collections::VecDeque;
use std::sync::Arc;

verus! {

/// A node of a radix tree with compressed edges, as far as counting copies
/// goes.
#[derive(Debug)]
pub struct Node {
    /// How many blocks the edge into this node holds.
    pub edge_len: usize,
    /// How many workers hold the whole edge.
    pub full_edge_workers: usize,
    /// How many blocks of the edge the other workers hold, all together.
    pub partial_cutoff_sum: usize,
    /// The children that are not stale.
    pub live_children: Vec<Arc<Node>>,
}

/// What a walk reads off one node.
#[derive(Debug)]
pub struct RedundancyCounts<'a> {
    pub edge_len: usize,
    pub full_edge_workers: usize,
    pub partial_cutoff_sum: usize,
    pub live_children: &'a Vec<Arc<Node>>,
}

/// Distinct blocks, and copies of them over all workers.
#[derive(Clone, Copy, Debug, PartialEq, Eq, Structural)]
pub struct RedundancyStats {
    pub distinct_blocks: u64,
    pub total_block_copies: u64,
}

impl Default for RedundancyStats {
    fn default() -> (stats: Self)
        ensures
            stats == (RedundancyStats { distinct_blocks: 0, total_block_copies: 0 }),
    {
        RedundancyStats { distinct_blocks: 0, total_block_copies: 0 }
    }
}

/// The copies of the blocks of one edge. An edge without blocks has none.
pub open spec fn edge_copies(node: Node) -> nat {
    if node.edge_len > 0 {
        node.edge_len as nat * node.full_edge_workers as nat + node.partial_cutoff_sum as nat
    } else {
        0
    }
}

/// What the nodes of a subtree add up to.
pub open spec fn subtree_sum(node: Node, f: spec_fn(Node) -> nat) -> nat
    decreases node, 1nat,
{
    f(node) + forest_sum(node.live_children@, f)
}

/// What the nodes of several subtrees add up to.
pub open spec fn forest_sum(nodes: Seq<Arc<Node>>, f: spec_fn(Node) -> nat) -> nat
    decreases nodes, 0nat,
{
    if nodes.len() == 0 {
        0
    } else {
        forest_sum(nodes.drop_last(), f) + subtree_sum(*nodes.last(), f)
    }
}

/// The distinct blocks of a subtree.
pub open spec fn distinct_blocks(node: Node) -> nat {
    subtree_sum(node, |n: Node| n.edge_len as nat)
}

/// The block copies of a subtree.
pub open spec fn block_copies(node: Node) -> nat {
    subtree_sum(node, |n: Node| edge_copies(n))
}

/// What the subtrees that wait in a queue add up to.
spec fn queue_sum(queue: Seq<&Node>, f: spec_fn(Node) -> nat) -> nat
    decreases queue.len(),
{
    if queue.len() == 0 {
        0
    } else {
        subtree_sum(*queue[0], f) + queue_sum(queue.drop_first(), f)
    }
}

proof fn lemma_queue_push(queue: Seq<&Node>, node: &Node, f: spec_fn(Node) -> nat)
    ensures
        queue_sum(queue.push(node), f) == queue_sum(queue, f) + subtree_sum(*node, f),
    decreases queue.len(),
{
    reveal_with_fuel(queue_sum, 2);
    if queue.len() == 0 {
        assert(queue.push(node).drop_first() =~= Seq::<&Node>::empty());
    } else {
        assert(queue.push(node).drop_first() =~= queue.drop_first().push(node));
        lemma_queue_push(queue.drop_first(), node, f);
    }
}

impl Node {
    pub fn redundancy_counts(&self) -> (counts: RedundancyCounts<'_>)
        ensures
            counts.edge_len == self.edge_len,
            counts.full_edge_workers == self.full_edge_workers,
            counts.partial_cutoff_sum == self.partial_cutoff_sum,
            *counts.live_children == self.live_children,
    {
        RedundancyCounts {
            edge_len: self.edge_len,
            full_edge_workers: self.full_edge_workers,
            partial_cutoff_sum: self.partial_cutoff_sum,
            live_children: &self.live_children,
        }
    }
}

/// A radix tree over block sequences, shared by all workers.
#[derive(Debug)]
pub struct ConcurrentRadixTreeCompressed {
    pub root: Arc<Node>,
}

/// Puts the children of a node at the end of the queue.
fn enqueue<'a>(queue: &mut VecDeque<&'a Node>, children: &'a Vec<Arc<Node>>)
    ensures
        forall|f: spec_fn(Node) -> nat| #[trigger]
            queue_sum(final(queue)@, f) == queue_sum(old(queue)@, f) + forest_sum(children@, f),
{
    let mut i: usize = 0;
    assert(children@.take(0) =~= Seq::<Arc<Node>>::empty());
    while i < children.len()
        invariant
            i <= children@.len(),
            forall|f: spec_fn(Node) -> nat| #[trigger]
                queue_sum(queue@, f) == queue_sum(old(queue)@, f) + forest_sum(
                    children@.take(i as int),
                    f,
                ),
        decreases children.len() - i,
    {
        let ghost before = queue@;
        let child: &'a Node = &*children[i];
        queue.push_back(child);
        proof {
            assert(children@.take(i + 1).drop_last() == children@.take(i as int));
            assert forall|f: spec_fn(Node) -> nat| #[trigger]
                queue_sum(queue@, f) == queue_sum(old(queue)@, f) + forest_sum(
                    children@.take(i + 1),
                    f,
                ) by {
                lemma_queue_push(before, child, f);
                assert(queue_sum(before, f) == queue_sum(old(queue)@, f) + forest_sum(
                    children@.take(i as int),
                    f,
                ));
            }
        }
        i += 1;
    }
    assert(children@.take(i as int) == children@);
}

impl ConcurrentRadixTreeCompressed {
    /// Walks the tree breadth first and counts its distinct blocks and their
    /// copies, or returns nothing where a count does not fit.
    pub fn checked_redundancy_stats(&self) -> (stats: Option<RedundancyStats>)
        ensures
            match stats {
                Some(stats) => stats.distinct_blocks == distinct_blocks(*self.root)
                    && stats.total_block_copies == block_copies(*self.root),
                None => distinct_blocks(*self.root) > u64::MAX || block_copies(*self.root)
                    > u64::MAX,
            },
    {
        let ghost blocks = |n: Node| n.edge_len as nat;
        let ghost copies = |n: Node| edge_copies(n);
        let ghost one = |n: Node| 1nat;
        let mut stats = RedundancyStats::default();
        let mut queue: VecDeque<&Node> = VecDeque::new();
        queue.push_back(&*self.root);
        proof {
            assert forall|f: spec_fn(Node) -> nat| #[trigger]
                queue_sum(queue@, f) == subtree_sum(*self.root, f) by {
                lemma_queue_push(Seq::empty(), &*self.root, f);
                assert(queue@ =~= Seq::<&Node>::empty().push(&*self.root));
            }
        }
        loop
            invariant
                blocks == |n: Node| n.edge_len as nat,
                copies == |n: Node| edge_copies(n),
                one == |n: Node| 1nat,
                stats.distinct_blocks + queue_sum(queue@, blocks) == distinct_blocks(*self.root),
                stats.total_block_copies + queue_sum(queue@, copies) == block_copies(*self.root),
            decreases queue_sum(queue@, one),
        {
            let ghost waiting = queue@;
            match queue.pop_front() {
                None => {
                    return Some(stats);
                },
                Some(node) => {
                    let counts = node.redundancy_counts();
                    assert(queue@ =~= waiting.drop_first());
                    if counts.edge_len > 0 {
                        let edge_len: u64 = counts.edge_len as u64;
                        match stats.distinct_blocks.checked_add(edge_len) {
                            Some(sum) => { stats.distinct_blocks = sum; },
                            None => { return None; },
                        }
                        let full: u64 = match edge_len.checked_mul(
                            counts.full_edge_workers as u64,
                        ) {
                            Some(product) => product,
                            None => { return None; },
                        };
                        let added: u64 = match full.checked_add(counts.partial_cutoff_sum as u64) {
                            Some(sum) => sum,
                            None => { return None; },
                        };
                        match stats.total_block_copies.checked_add(added) {
                            Some(sum) => { stats.total_block_copies = sum; },
                            None => { return None; },
                        }
                    }
                    enqueue(&mut queue, counts.live_children);
                },
            }
        }
    }

    /// Walks the tree breadth first and counts its distinct blocks and their
    /// copies.
    pub fn redundancy_stats(&self) -> (stats: RedundancyStats)
        requires
            distinct_blocks(*self.root) <= u64::MAX,
            block_copies(*self.root) <= u64::MAX,
        ensures
            stats.distinct_blocks == distinct_blocks(*self.root),
            stats.total_block_copies == block_copies(*self.root),
    {
        self.checked_redundancy_stats().unwrap()
    }
}

/// Whether every node of a subtree has a property.
pub open spec fn subtree_all(node: Node, p: spec_fn(Node) -> bool) -> bool
    decreases node, 1nat,
{
    p(node) && forest_all(node.live_children@, p)
}

/// Whether every node of several subtrees has a property.
pub open spec fn forest_all(nodes: Seq<Arc<Node>>, p: spec_fn(Node) -> bool) -> bool
    decreases nodes, 0nat,
{
    nodes.len() == 0 || (forest_all(nodes.drop_last(), p) && subtree_all(*nodes.last(), p))
}

/// Sums keep an order that holds at every node.
proof fn lemma_subtree_sum_is_monotonic(
    node: &Node,
    p: spec_fn(Node) -> bool,
    f: spec_fn(Node) -> nat,
    g: spec_fn(Node) -> nat,
)
    requires
        subtree_all(*node, p),
        forall|n: Node| #[trigger] p(n) ==> f(n) <= g(n),
    ensures
        subtree_sum(*node, f) <= subtree_sum(*node, g),
    decreases *node, 1nat,
{
    assert(p(*node));
    lemma_forest_sum_is_monotonic(node.live_children@, p, f, g);
}

proof fn lemma_forest_sum_is_monotonic(
    nodes: Seq<Arc<Node>>,
    p: spec_fn(Node) -> bool,
    f: spec_fn(Node) -> nat,
    g: spec_fn(Node) -> nat,
)
    requires
        forest_all(nodes, p),
        forall|n: Node| #[trigger] p(n) ==> f(n) <= g(n),
    ensures
        forest_sum(nodes, f) <= forest_sum(nodes, g),
    decreases nodes, 0nat,
{
    if nodes.len() > 0 {
        lemma_forest_sum_is_monotonic(nodes.drop_last(), p, f, g);
        lemma_subtree_sum_is_monotonic(&*nodes.last(), p, f, g);
    }
}

/// Where some worker holds each edge whole, there are at least as many copies
/// as distinct blocks.
pub proof fn lemma_every_block_has_a_copy(node: Node)
    requires
        subtree_all(node, |n: Node| n.edge_len > 0 ==> n.full_edge_workers >= 1),
    ensures
        distinct_blocks(node) <= block_copies(node),
{
    let p = |n: Node| n.edge_len > 0 ==> n.full_edge_workers >= 1;
    let blocks = |n: Node| n.edge_len as nat;
    let copies = |n: Node| edge_copies(n);
    assert forall|n: Node| #[trigger] p(n) implies blocks(n) <= copies(n) by {
        if n.edge_len > 0 {
            assert(n.edge_len as nat <= n.edge_len as nat * n.full_edge_workers as nat)
                by (nonlinear_arith)
                requires
                    n.full_edge_workers >= 1,
            ;
        }
    }
    lemma_subtree_sum_is_monotonic(&node, p, blocks, copies);
}

/// Where one worker holds each edge whole and no other holds any of it,
/// nothing is redundant: there are as many copies as distinct blocks.
pub proof fn lemma_sole_holders_mean_no_redundancy(node: Node)
    requires
        subtree_all(
            node,
            |n: Node| n.edge_len > 0 ==> n.full_edge_workers == 1 && n.partial_cutoff_sum == 0,
        ),
    ensures
        distinct_blocks(node) == block_copies(node),
{
    let p = |n: Node|
        n.edge_len > 0 ==> n.full_edge_workers == 1 && n.partial_cutoff_sum == 0;
    let blocks = |n: Node| n.edge_len as nat;
    let copies = |n: Node| edge_copies(n);
    assert forall|n: Node| #[trigger] p(n) implies blocks(n) == copies(n) by {
        if n.edge_len > 0 {
            assert(n.edge_len as nat * 1 == n.edge_len as nat) by (nonlinear_arith);
        }
    }
    lemma_subtree_sum_is_monotonic(&node, p, blocks, copies);
    lemma_subtree_sum_is_monotonic(&node, p, copies, blocks);
}

/// A further child adds its own blocks and copies to those of the tree.
pub proof fn lemma_child_adds_its_counts(node: Node, child: Arc<Node>, extended: Node)
    requires
        extended.edge_len == node.edge_len,
        extended.full_edge_workers == node.full_edge_workers,
        extended.partial_cutoff_sum == node.partial_cutoff_sum,
        extended.live_children@ == node.live_children@.push(child),
    ensures
        distinct_blocks(extended) == distinct_blocks(node) + distinct_blocks(*child),
        block_copies(extended) == block_copies(node) + block_copies(*child),
{
    assert(extended.live_children@.drop_last() == node.live_children@);
    assert(extended.live_children@.last() == child);
}

/// Taking one of several subtrees away takes its sum away.
proof fn lemma_forest_sum_remove(nodes: Seq<Arc<Node>>, i: int, f: spec_fn(Node) -> nat)
    requires
        0 <= i < nodes.len(),
    ensures
        forest_sum(nodes, f) == forest_sum(nodes.remove(i), f) + subtree_sum(*nodes[i], f),
    decreases nodes.len(),
{
    if i == nodes.len() - 1 {
        assert(nodes.remove(i) =~= nodes.drop_last());
    } else {
        lemma_forest_sum_remove(nodes.drop_last(), i, f);
        assert(nodes.remove(i).drop_last() =~= nodes.drop_last().remove(i));
        assert(nodes.remove(i).last() == nodes.last());
    }
}

/// What several subtrees add up to does not depend on their order.
proof fn lemma_forest_sum_ignores_order(
    one: Seq<Arc<Node>>,
    other: Seq<Arc<Node>>,
    f: spec_fn(Node) -> nat,
)
    requires
        one.to_multiset() == other.to_multiset(),
    ensures
        forest_sum(one, f) == forest_sum(other, f),
    decreases one.len(),
{
    broadcast use vstd::seq_lib::group_to_multiset_ensures;

    assert(one.to_multiset().len() == one.len());
    assert(other.to_multiset().len() == other.len());
    if one.len() > 0 {
        let i = one.len() - 1;
        assert(one.contains(one[i]));
        assert(other.to_multiset().count(one[i]) > 0);
        assert(other.contains(one[i]));
        let j = other.index_of(one[i]);
        lemma_forest_sum_remove(one, i, f);
        lemma_forest_sum_remove(other, j, f);
        assert(one.remove(i).to_multiset() == other.remove(j).to_multiset());
        lemma_forest_sum_ignores_order(one.remove(i), other.remove(j), f);
    }
}

/// The counts do not depend on the order in which a node hands out its
/// children.
pub proof fn lemma_child_order_does_not_matter(node: Node, reordered: Node)
    requires
        reordered.edge_len == node.edge_len,
        reordered.full_edge_workers == node.full_edge_workers,
        reordered.partial_cutoff_sum == node.partial_cutoff_sum,
        reordered.live_children@.to_multiset() == node.live_children@.to_multiset(),
    ensures
        distinct_blocks(reordered) == distinct_blocks(node),
        block_copies(reordered) == block_copies(node),
{
    lemma_forest_sum_ignores_order(
        reordered.live_children@,
        node.live_children@,
        |n: Node| n.edge_len as nat,
    );
    lemma_forest_sum_ignores_order(
        reordered.live_children@,
        node.live_children@,
        |n: Node| edge_copies(n),
    );
}

/// One worker more that holds an edge whole adds as many copies as the edge
/// has blocks, however many held it before, and no distinct block.
pub proof fn lemma_whole_holder_adds_the_edge(node: Node, more: Node)
    requires
        more.edge_len == node.edge_len,
        more.full_edge_workers == node.full_edge_workers + 1,
        more.partial_cutoff_sum == node.partial_cutoff_sum,
        more.live_children@ == node.live_children@,
    ensures
        block_copies(more) == block_copies(node) + node.edge_len,
        distinct_blocks(more) == distinct_blocks(node),
{
    let n = node.edge_len as nat;
    let full = node.full_edge_workers as nat;
    assert(n * (full + 1) == n * full + n) by (nonlinear_arith);
}

/// One block more that a worker holds of a part of an edge is one copy more,
/// however many there were before, and no distinct block.
pub proof fn lemma_partial_block_adds_one(node: Node, more: Node)
    requires
        node.edge_len > 0,
        more.edge_len == node.edge_len,
        more.full_edge_workers == node.full_edge_workers,
        more.partial_cutoff_sum == node.partial_cutoff_sum + 1,
        more.live_children@ == node.live_children@,
    ensures
        block_copies(more) == block_copies(node) + 1,
        distinct_blocks(more) == distinct_blocks(node),
{
}

/// One block more on an edge is one distinct block more, and one copy more for
/// each worker that holds the edge whole.
pub proof fn lemma_longer_edge_adds_one_block(node: Node, longer: Node)
    requires
        node.edge_len > 0,
        longer.edge_len == node.edge_len + 1,
        longer.full_edge_workers == node.full_edge_workers,
        longer.partial_cutoff_sum == node.partial_cutoff_sum,
        longer.live_children@ == node.live_children@,
    ensures
        block_copies(longer) == block_copies(node) + node.full_edge_workers,
        distinct_blocks(longer) == distinct_blocks(node) + 1,
{
    let n = node.edge_len as nat;
    let full = node.full_edge_workers as nat;
    assert((n + 1) * full == n * full + full) by (nonlinear_arith);
}

/// A node without children has the blocks of its edge. Where nobody holds the
/// edge, or it has no blocks, there are no copies.
pub proof fn lemma_unheld_edge_has_no_copies(node: Node)
    requires
        node.live_children@.len() == 0,
    ensures
        distinct_blocks(node) == node.edge_len,
        node.full_edge_workers == 0 && node.partial_cutoff_sum == 0 ==> block_copies(node) == 0,
        node.edge_len == 0 ==> block_copies(node) == 0,
{
    assert(node.edge_len as nat * 0 == 0) by (nonlinear_arith);
}

} // verus!
