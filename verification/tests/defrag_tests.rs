//! Defrag policy: candidate sorting and budgeted selection.

use lxr::address::Address;
use lxr::block::DEFRAG_SOURCE_STATE;
use lxr::defrag::{
    score_and_rank_regions, select_defrag_sources, sort_stats_by_live,
    under_liveness_threshold, DefragPolicy, NoDefragPolicy,
};
use lxr::space::ImmixSpace;
use lxr::BYTES_IN_BLOCK;

const BASE: usize = 0x1000_0000;

#[test]
fn liveness_threshold() {
    // Twenty percent of a block is 6553 bytes and change.
    assert!(under_liveness_threshold(6553, 20));
    assert!(!under_liveness_threshold(6554, 20));
    assert!(under_liveness_threshold(0, 0));
    assert!(under_liveness_threshold(BYTES_IN_BLOCK, 100));
}

#[test]
fn sorting_orders_by_live_bytes() {
    let mut stats = vec![(3usize, 900usize), (0, 100), (2, 500), (1, 100)];
    sort_stats_by_live(&mut stats);
    let lives: Vec<usize> = stats.iter().map(|s| s.1).collect();
    assert_eq!(lives, vec![100, 100, 500, 900]);
    let mut blocks: Vec<usize> = stats.iter().map(|s| s.0).collect();
    blocks.sort();
    assert_eq!(blocks, vec![0, 1, 2, 3]);
}

/// Selection walks the sorted candidates and stops at the budget,
/// including the block that crosses it; exactly the chosen blocks are
/// flagged as defrag sources.
#[test]
fn selection_respects_the_budget() {
    let mut space = ImmixSpace::new(Address::from_usize(BASE), 8);
    let stats = vec![(5usize, 100usize), (2, 200), (7, 400), (1, 800)];
    let chosen = select_defrag_sources(&mut space, &stats, 650);
    assert_eq!(chosen, vec![5, 2, 7]);
    for b in [5usize, 2, 7] {
        let block = lxr::block::Block::from(Address::from_usize(BASE + b * BYTES_IN_BLOCK));
        assert!(block.is_defrag_source(&space.defrag_state));
    }
    for b in [0usize, 1, 3, 4, 6] {
        let block = lxr::block::Block::from(Address::from_usize(BASE + b * BYTES_IN_BLOCK));
        assert!(!block.is_defrag_source(&space.defrag_state));
    }
    assert_ne!(DEFRAG_SOURCE_STATE, 0);
}

/// Regions are scored by the cube of their reclaimable-block count
/// scaled by a million over their live bytes, ranked falling; regions
/// with nothing live or nothing reclaimable are dropped.
#[test]
fn region_scoring_and_ranking() {
    // Region 0: two reclaimable blocks of 100 live bytes each.
    // Region 1: nothing reclaimable. Region 2: one reclaimable block.
    // Region 3: empty.
    let regions = vec![
        vec![100usize, 100],
        vec![BYTES_IN_BLOCK, BYTES_IN_BLOCK],
        vec![50usize],
        vec![],
    ];
    let scored = score_and_rank_regions(&regions, 20);
    assert_eq!(scored.len(), 2);
    assert_eq!(scored[0], (0, 8 * 1000000 / 200));
    assert_eq!(scored[1], (2, 1 * 1000000 / 50));
    assert!(scored[0].1 >= scored[1].1);
}

#[test]
fn no_defrag_policy_selects_nothing() {
    let mut space = ImmixSpace::new(Address::from_usize(BASE), 4);
    let mut policy = NoDefragPolicy;
    let chosen = policy.select(&mut space, vec![(0, 100)], 20, 100000);
    assert!(chosen.is_empty());
}

#[test]
fn selection_takes_everything_under_a_large_budget() {
    let mut space = ImmixSpace::new(Address::from_usize(BASE), 8);
    let stats = vec![(0usize, 100usize), (1, 100)];
    let chosen = select_defrag_sources(&mut space, &stats, 100000);
    assert_eq!(chosen, vec![0, 1]);
}
