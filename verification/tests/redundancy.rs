use std::sync::Arc;

use kv_router::indexer::redundancy::{ConcurrentRadixTreeCompressed, Node, RedundancyStats};

fn node(edge_len: usize, full: usize, partial: usize, children: Vec<Arc<Node>>) -> Arc<Node> {
    Arc::new(Node {
        edge_len,
        full_edge_workers: full,
        partial_cutoff_sum: partial,
        live_children: children,
    })
}

fn stats(distinct_blocks: u64, total_block_copies: u64) -> RedundancyStats {
    RedundancyStats { distinct_blocks, total_block_copies }
}

#[test]
fn empty_tree_holds_nothing() {
    let tree = ConcurrentRadixTreeCompressed { root: node(0, 0, 0, vec![]) };
    assert_eq!(tree.redundancy_stats(), RedundancyStats::default());
    assert_eq!(tree.redundancy_stats(), stats(0, 0));
}

#[test]
fn every_node_adds_its_blocks_and_copies() {
    let leaf = node(4, 1, 3, vec![]);
    let left = node(3, 2, 1, vec![leaf, node(1, 1, 0, vec![])]);
    let right = node(5, 0, 6, vec![]);
    let tree = ConcurrentRadixTreeCompressed { root: node(0, 0, 0, vec![left, right]) };
    assert_eq!(tree.redundancy_stats(), stats(13, 7 + 7 + 1 + 6));
    assert_eq!(tree.checked_redundancy_stats(), Some(stats(13, 21)));
}

#[test]
fn an_edge_without_blocks_adds_nothing() {
    let tree = ConcurrentRadixTreeCompressed {
        root: node(0, 9, 9, vec![node(2, 1, 0, vec![])]),
    };
    assert_eq!(tree.redundancy_stats(), stats(2, 2));
}

#[test]
fn sole_holders_mean_no_redundancy() {
    let child = node(6, 1, 0, vec![node(7, 1, 0, vec![])]);
    let tree = ConcurrentRadixTreeCompressed { root: node(0, 0, 0, vec![child]) };
    assert_eq!(tree.redundancy_stats(), stats(13, 13));
}

#[test]
fn child_order_does_not_matter() {
    let a = node(2, 3, 1, vec![]);
    let b = node(5, 1, 4, vec![]);
    let one = ConcurrentRadixTreeCompressed { root: node(0, 0, 0, vec![a.clone(), b.clone()]) };
    let other = ConcurrentRadixTreeCompressed { root: node(0, 0, 0, vec![b, a]) };
    assert_eq!(one.redundancy_stats(), stats(7, 16));
    assert_eq!(other.redundancy_stats(), stats(7, 16));
}

#[test]
fn counts_that_do_not_fit_are_refused() {
    let product = ConcurrentRadixTreeCompressed { root: node(usize::MAX, 2, 0, vec![]) };
    assert_eq!(product.checked_redundancy_stats(), None);
    let partial = ConcurrentRadixTreeCompressed { root: node(usize::MAX, 1, 1, vec![]) };
    assert_eq!(partial.checked_redundancy_stats(), None);
    let blocks = ConcurrentRadixTreeCompressed {
        root: node(usize::MAX, 0, 0, vec![node(1, 0, 0, vec![])]),
    };
    assert_eq!(blocks.checked_redundancy_stats(), None);
    let copies = ConcurrentRadixTreeCompressed {
        root: node(1, usize::MAX, 0, vec![node(1, 1, 0, vec![])]),
    };
    assert_eq!(copies.checked_redundancy_stats(), None);
    let largest = ConcurrentRadixTreeCompressed { root: node(usize::MAX, 1, 0, vec![]) };
    assert_eq!(largest.checked_redundancy_stats(), Some(stats(u64::MAX, u64::MAX)));
}
