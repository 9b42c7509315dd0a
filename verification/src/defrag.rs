//! Defragmentation policies: choosing the evacuation candidates of a
//! pause from per-block liveness statistics, under a copy budget.

use vstd::prelude::*;

verus! {

use crate::BYTES_IN_BLOCK;
use crate::address::Address;
use crate::block::Block;
use crate::block::DEFRAG_SOURCE_STATE;
use crate::space::ImmixSpace;

broadcast use crate::address::lemma_address_bounds;

/// Whether a block's live bytes fall at or under a percentage
/// threshold of the block size: the candidate test every policy uses.
pub fn under_liveness_threshold(live_bytes: usize, threshold_percent: usize) -> (r: bool)
    requires
        live_bytes <= BYTES_IN_BLOCK,
        threshold_percent <= 100,
    ensures
        r == (live_bytes * 100 <= threshold_percent * BYTES_IN_BLOCK),
{
    live_bytes * 100 <= threshold_percent * BYTES_IN_BLOCK
}

/// Whether block statistics are ordered by rising live bytes.
pub open spec fn spec_sorted_by_live(stats: Seq<(usize, usize)>) -> bool {
    forall|i: int, j: int| 0 <= i < j < stats.len() ==> (#[trigger] stats[i]).1 <= (
    #[trigger] stats[j]).1
}

/// Sort block statistics by rising live bytes, keeping exactly the
/// same entries: the most fragmented blocks come first.
pub fn sort_stats_by_live(stats: &mut Vec<(usize, usize)>)
    ensures
        final(stats)@.len() == old(stats)@.len(),
        spec_sorted_by_live(final(stats)@),
        final(stats)@.to_multiset() == old(stats)@.to_multiset(),
{
    let n = stats.len();
    let mut i: usize = 0;
    while i < n
        invariant
            i <= n,
            stats@.len() == n,
            stats@.to_multiset() == old(stats)@.to_multiset(),
            forall|a: int, b: int| 0 <= a < b < i ==> (#[trigger] stats@[a]).1 <= (
            #[trigger] stats@[b]).1,
            forall|a: int, b: int|
                0 <= a < i && i <= b < n ==> (#[trigger] stats@[a]).1 <= (#[trigger] stats@[b]).1,
        decreases n - i,
    {
        let mut min_idx: usize = i;
        let mut j: usize = i + 1;
        while j < n
            invariant
                i <= min_idx < j <= n,
                stats@.len() == n,
                forall|a: int| i <= a < j ==> (#[trigger] stats@[a]).1 >= stats@[min_idx as int].1,
            decreases n - j,
        {
            if stats[j].1 < stats[min_idx].1 {
                min_idx = j;
            }
            j = j + 1;
        }
        if min_idx != i {
            let ghost pre = stats@;
            let a = stats[i];
            let b = stats[min_idx];
            stats.set(i, b);
            stats.set(min_idx, a);
            proof {
                broadcast use vstd::multiset::group_multiset_axioms;
                broadcast use vstd::seq_lib::to_multiset_contains;

                vstd::seq_lib::to_multiset_update(pre, i as int, b);
                vstd::seq_lib::to_multiset_update(pre.update(i as int, b), min_idx as int, a);
                assert(pre.contains(a));
                assert(pre.contains(b));
                assert(pre.update(i as int, b)[min_idx as int] == b);
                assert(stats@.to_multiset() =~= pre.to_multiset());
            }
        }
        i = i + 1;
    }
}

/// The live bytes of the first `m` candidate blocks.
pub open spec fn spec_prefix_live(stats: Seq<(usize, usize)>, m: int) -> int
    decreases m,
{
    if m <= 0 {
        0
    } else {
        spec_prefix_live(stats, m - 1) + stats[m - 1].1
    }
}

/// How many leading candidates a budget admits: candidates are taken
/// until the accumulated live bytes reach the budget, including the
/// one that crosses it.
pub open spec fn spec_budget_cutoff(stats: Seq<(usize, usize)>, budget: int) -> int {
    crate::space::spec_find_from(
        |m: int| spec_prefix_live(stats, m) >= budget,
        1,
        stats.len() as int + 1,
    )
}

/// Select evacuation candidates up to the copy budget: walk the sorted
/// candidates, flagging each block as a defrag source, until the
/// accumulated live bytes reach the budget. Returns the chosen block
/// indices in selection order.
#[verifier::rlimit(100)]
#[verifier::spinoff_prover]
pub fn select_defrag_sources(
    space: &mut ImmixSpace,
    stats: &Vec<(usize, usize)>,
    budget_bytes: usize,
) -> (chosen: Vec<usize>)
    requires
        old(space).wf(),
        forall|i: int| 0 <= i < stats@.len() ==> (#[trigger] stats@[i]).0 < old(space).num_blocks,
        forall|i: int| 0 <= i < stats@.len() ==> (#[trigger] stats@[i]).1 <= BYTES_IN_BLOCK,
        budget_bytes + BYTES_IN_BLOCK <= usize::MAX,
    ensures
        final(space).wf(),
        *final(space) == (ImmixSpace { defrag_state: final(space).defrag_state, ..*old(space) }),
        ({
            let cut = spec_budget_cutoff(stats@, budget_bytes as int);
            let count = if cut <= stats@.len() {
                cut
            } else {
                stats@.len() as int
            };
            &&& chosen@.len() == count
            &&& (forall|i: int| 0 <= i < count ==> chosen@[i] == (#[trigger] stats@[i]).0)
            &&& (forall|i: int|
                0 <= i < count ==> final(space).defrag_state.spec_bytes()[(
                #[trigger] stats@[i]).0 as int] == DEFRAG_SOURCE_STATE)
        }),
        forall|b: int|
            #![trigger final(space).defrag_state.spec_bytes()[b]]
            0 <= b < old(space).num_blocks && !chosen@.contains(b as usize) ==> final(space).defrag_state.spec_bytes()[b] == old(space).defrag_state.spec_bytes()[b],
{
    let ghost p = |m: int| spec_prefix_live(stats@, m) >= budget_bytes as int;
    let ghost limit = stats@.len() as int + 1;
    let mut chosen: Vec<usize> = Vec::new();
    let mut copy_bytes: usize = 0;
    let mut i: usize = 0;
    let n = stats.len();
    proof {
        crate::space::lemma_find_from(p, 1, limit);
    }
    while i < n
        invariant
            i <= n,
            n == stats@.len(),
            space.wf(),
            *space == (ImmixSpace { defrag_state: space.defrag_state, ..*old(space) }),
            old(space).wf(),
            budget_bytes + BYTES_IN_BLOCK <= usize::MAX,
            forall|k: int| 0 <= k < stats@.len() ==> (#[trigger] stats@[k]).0 < old(space).num_blocks,
            forall|k: int| 0 <= k < stats@.len() ==> (#[trigger] stats@[k]).1 <= BYTES_IN_BLOCK,
            copy_bytes == spec_prefix_live(stats@, i as int),
            copy_bytes < budget_bytes || i == 0,
            p == (|m: int| spec_prefix_live(stats@, m) >= budget_bytes as int),
            limit == stats@.len() as int + 1,
            forall|m: int| 1 <= m <= i ==> !#[trigger] p(m),
            chosen@.len() == i,
            forall|k: int| 0 <= k < i ==> chosen@[k] == (#[trigger] stats@[k]).0,
            forall|k: int|
                0 <= k < i ==> space.defrag_state.spec_bytes()[(#[trigger] stats@[k]).0 as int]
                    == DEFRAG_SOURCE_STATE,
            forall|b: int|
                #![trigger space.defrag_state.spec_bytes()[b]]
                0 <= b < old(space).num_blocks && !chosen@.contains(b as usize)
                    ==> space.defrag_state.spec_bytes()[b] == old(space).defrag_state.spec_bytes()[b],
        decreases n - i,
    {
        let (block_index, live_bytes) = stats[i];
        let ghost pre_defrag = space.defrag_state.spec_bytes();
        let block_addr = block_index * crate::BYTES_IN_BLOCK;
        proof {
            vstd::arithmetic::mul::lemma_mul_inequality(
                block_index as int,
                old(space).num_blocks as int - 1,
                BYTES_IN_BLOCK as int,
            );
            vstd::arithmetic::mul::lemma_mul_is_distributive_sub_other_way(
                BYTES_IN_BLOCK as int,
                old(space).num_blocks as int,
                1,
            );
            vstd::arithmetic::div_mod::lemma_mod_multiples_vanish(
                block_index as int,
                old(space).spec_base(),
                BYTES_IN_BLOCK as int,
            );
            vstd::arithmetic::mul::lemma_mul_is_commutative(
                block_index as int,
                BYTES_IN_BLOCK as int,
            );
        }
        let block = Block::from(space.base.add(block_addr));
        proof {
            space.lemma_block_tables(block, 0);
            crate::meta::lemma_index_of_multiple(
                old(space).spec_base(),
                BYTES_IN_BLOCK as int,
                block_index as int,
            );
        }
        let ghost pre_chosen = chosen@;
        block.set_as_defrag_source(&mut space.defrag_state, true);
        chosen.push(block_index);
        proof {
            assert(chosen@[chosen@.len() - 1] == block_index);
            assert(chosen@.contains(block_index));
            assert(space.defrag_state.spec_bytes() == pre_defrag.update(
                block_index as int,
                DEFRAG_SOURCE_STATE,
            ));
            assert forall|b: int|
                0 <= b < old(space).num_blocks && !chosen@.contains(
                    b as usize,
                ) implies space.defrag_state.spec_bytes()[b] == old(space).defrag_state.spec_bytes()[b] by {
                assert(b != block_index);
                if pre_chosen.contains(b as usize) {
                    let w = choose|w: int|
                        0 <= w < pre_chosen.len() && pre_chosen[w] == b as usize;
                    assert(chosen@[w] == b as usize);
                }
            }
            assert forall|k: int|
                0 <= k < chosen@.len() implies space.defrag_state.spec_bytes()[(
            #[trigger] stats@[k]).0 as int] == DEFRAG_SOURCE_STATE by {
                if stats@[k].0 != block_index {
                    assert(pre_defrag[stats@[k].0 as int] == DEFRAG_SOURCE_STATE);
                }
            }
        }
        copy_bytes = copy_bytes + live_bytes;
        i = i + 1;
        if copy_bytes >= budget_bytes {
            proof {
                assert(p(i as int));
                crate::space::lemma_find_from(p, 1, limit);
                assert(spec_budget_cutoff(stats@, budget_bytes as int) == i as int);
            }
            return chosen;
        }
        proof {
            assert(!p(i as int));
        }
    }
    proof {
        crate::space::lemma_find_from(p, 1, limit);
        if spec_budget_cutoff(stats@, budget_bytes as int) <= stats@.len() {
            assert(p(spec_budget_cutoff(stats@, budget_bytes as int)));
        }
    }
    chosen
}

/// Whether block statistics are ordered by falling score.
pub open spec fn spec_sorted_by_score_desc(stats: Seq<(usize, usize)>) -> bool {
    forall|i: int, j: int| 0 <= i < j < stats.len() ==> (#[trigger] stats[i]).1 >= (
    #[trigger] stats[j]).1
}

/// Sort region scores by falling score, keeping exactly the same
/// entries: the most fragmented regions come first.
pub fn sort_regions_by_score_desc(stats: &mut Vec<(usize, usize)>)
    ensures
        final(stats)@.len() == old(stats)@.len(),
        spec_sorted_by_score_desc(final(stats)@),
        final(stats)@.to_multiset() == old(stats)@.to_multiset(),
{
    let n = stats.len();
    let mut i: usize = 0;
    while i < n
        invariant
            i <= n,
            stats@.len() == n,
            stats@.to_multiset() == old(stats)@.to_multiset(),
            forall|a: int, b: int| 0 <= a < b < i ==> (#[trigger] stats@[a]).1 >= (
            #[trigger] stats@[b]).1,
            forall|a: int, b: int|
                0 <= a < i && i <= b < n ==> (#[trigger] stats@[a]).1 >= (#[trigger] stats@[b]).1,
        decreases n - i,
    {
        let mut max_idx: usize = i;
        let mut j: usize = i + 1;
        while j < n
            invariant
                i <= max_idx < j <= n,
                stats@.len() == n,
                forall|a: int| i <= a < j ==> (#[trigger] stats@[a]).1 <= stats@[max_idx as int].1,
            decreases n - j,
        {
            if stats[j].1 > stats[max_idx].1 {
                max_idx = j;
            }
            j = j + 1;
        }
        if max_idx != i {
            let ghost pre = stats@;
            let a = stats[i];
            let b = stats[max_idx];
            stats.set(i, b);
            stats.set(max_idx, a);
            proof {
                broadcast use vstd::multiset::group_multiset_axioms;
                broadcast use vstd::seq_lib::to_multiset_contains;

                vstd::seq_lib::to_multiset_update(pre, i as int, b);
                vstd::seq_lib::to_multiset_update(pre.update(i as int, b), max_idx as int, a);
                assert(pre.contains(a));
                assert(pre.contains(b));
                assert(pre.update(i as int, b)[max_idx as int] == b);
                assert(stats@.to_multiset() =~= pre.to_multiset());
            }
        }
        i = i + 1;
    }
}

/// The live bytes of a region's first `m` blocks.
pub open spec fn spec_region_live(blocks: Seq<usize>, m: int) -> int
    decreases m,
{
    if m <= 0 {
        0
    } else {
        spec_region_live(blocks, m - 1) + blocks[m - 1]
    }
}

/// How many of a region's first `m` blocks fall at or under the
/// liveness threshold: its reclaimable blocks.
pub open spec fn spec_region_reclaimable(blocks: Seq<usize>, m: int, threshold_percent: int) -> int
    decreases m,
{
    if m <= 0 {
        0
    } else {
        spec_region_reclaimable(blocks, m - 1, threshold_percent) + (if blocks[m - 1] * 100
            <= threshold_percent * BYTES_IN_BLOCK {
            1int
        } else {
            0int
        })
    }
}

/// A region's defragmentation score: the cube of its reclaimable-block
/// count, scaled and divided by its live bytes, so that regions
/// reclaiming much for little copying rank first.
pub open spec fn spec_region_score(reclaimable: int, live: int) -> int {
    reclaimable * reclaimable * reclaimable * 1000000 / live
}

/// The scored regions, in region order: a region appears exactly when
/// it has both live bytes and reclaimable blocks.
pub open spec fn spec_region_scores(
    regions: Seq<Seq<usize>>,
    threshold_percent: int,
    r: int,
) -> Seq<(usize, usize)>
    decreases r,
{
    if r <= 0 {
        Seq::empty()
    } else {
        let blocks = regions[r - 1];
        let live = spec_region_live(blocks, blocks.len() as int);
        let reclaimable = spec_region_reclaimable(blocks, blocks.len() as int, threshold_percent);
        spec_region_scores(regions, threshold_percent, r - 1) + (if live > 0 && reclaimable > 0 {
            seq![(((r - 1) as usize), (spec_region_score(reclaimable, live) as usize))]
        } else {
            Seq::empty()
        })
    }
}

/// Score every region from its blocks' live bytes and rank them by
/// falling score: each kept region's score is the cube of its
/// reclaimable-block count scaled by a million and divided by its live
/// bytes, regions with nothing to reclaim or nothing live are dropped,
/// and the result is ordered most-attractive-first.
#[verifier::rlimit(100)]
#[verifier::spinoff_prover]
pub fn score_and_rank_regions(
    region_block_live: &Vec<Vec<usize>>,
    threshold_percent: usize,
) -> (scored: Vec<(usize, usize)>)
    requires
        usize::MAX >= 0xffff_ffff_ffff,
        threshold_percent <= 100,
        forall|r: int|
            0 <= r < region_block_live@.len() ==> (#[trigger] region_block_live@[r])@.len()
                <= 256,
        forall|r: int, b: int|
            0 <= r < region_block_live@.len() && 0 <= b < region_block_live@[r]@.len() ==> (
            #[trigger] region_block_live@[r]@[b]) <= BYTES_IN_BLOCK,
    ensures
        scored@.to_multiset() == spec_region_scores(
            region_block_live.deep_view(),
            threshold_percent as int,
            region_block_live@.len() as int,
        ).to_multiset(),
        spec_sorted_by_score_desc(scored@),
{
    let ghost regions = region_block_live.deep_view();
    let mut scored: Vec<(usize, usize)> = Vec::new();
    let n = region_block_live.len();
    let mut r: usize = 0;
    while r < n
        invariant
            r <= n,
            n == regions.len(),
            regions == region_block_live.deep_view(),
            usize::MAX >= 0xffff_ffff_ffff,
            threshold_percent <= 100,
            forall|k: int|
                0 <= k < region_block_live@.len() ==> (#[trigger] region_block_live@[k])@.len()
                    <= 256,
            forall|k: int, b: int|
                0 <= k < region_block_live@.len() && 0 <= b < region_block_live@[k]@.len() ==> (
                #[trigger] region_block_live@[k]@[b]) <= BYTES_IN_BLOCK,
            scored@ == spec_region_scores(regions, threshold_percent as int, r as int),
        decreases n - r,
    {
        let blocks = &region_block_live[r];
        let m = blocks.len();
        let mut live: usize = 0;
        let mut reclaimable: usize = 0;
        let mut b: usize = 0;
        proof {
            assert(regions[r as int] =~= blocks.deep_view());
            assert(blocks@.len() <= 256);
        }
        while b < m
            invariant
                b <= m,
                m == blocks@.len(),
                m <= 256,
                threshold_percent <= 100,
                usize::MAX >= 0xffff_ffff_ffff,
                forall|k: int| 0 <= k < blocks@.len() ==> (#[trigger] blocks@[k]) <= BYTES_IN_BLOCK,
                live == spec_region_live(blocks@, b as int),
                reclaimable == spec_region_reclaimable(
                    blocks@,
                    b as int,
                    threshold_percent as int,
                ),
                live <= b * BYTES_IN_BLOCK,
                reclaimable <= b,
            decreases m - b,
        {
            proof {
                vstd::arithmetic::mul::lemma_mul_inequality(b as int, 256, BYTES_IN_BLOCK as int);
                vstd::arithmetic::mul::lemma_mul_is_distributive_add_other_way(
                    BYTES_IN_BLOCK as int,
                    b as int,
                    1,
                );
            }
            let lb = blocks[b];
            live = live + lb;
            if under_liveness_threshold(lb, threshold_percent) {
                reclaimable = reclaimable + 1;
            }
            b = b + 1;
        }
        if live > 0 && reclaimable > 0 {
            proof {
                let c = reclaimable as int;
                assert(c * c <= 65536) by (nonlinear_arith)
                    requires
                        0 <= c <= 256,
                ;
                assert(c * c * c <= 16777216) by (nonlinear_arith)
                    requires
                        0 <= c <= 256 && c * c <= 65536,
                ;
                assert(c * c * c * 1000000 <= 0xffff_ffff_ffff) by (nonlinear_arith)
                    requires
                        0 <= c * c * c <= 16777216,
                ;
            }
            let score = reclaimable * reclaimable * reclaimable * 1000000 / live;
            scored.push((r, score));
            proof {
                assert(blocks@ =~= regions[r as int]);
                assert(scored@ =~= spec_region_scores(
                    regions,
                    threshold_percent as int,
                    r + 1,
                ));
            }
        } else {
            proof {
                assert(blocks@ =~= regions[r as int]);
                assert(scored@ =~= spec_region_scores(
                    regions,
                    threshold_percent as int,
                    r + 1,
                ));
            }
        }
        r = r + 1;
    }
    sort_regions_by_score_desc(&mut scored);
    scored
}

/// The policy interface: a policy selects this pause's collection set
/// from the candidate statistics and decides how much of it each
/// evacuation round takes on.
pub trait DefragPolicy {
    /// Select the pause's defrag sources from candidate blocks, given
    /// the liveness threshold and the copy budget, and flag them in the
    /// space. Returns the chosen block indices.
    fn select(
        &mut self,
        space: &mut ImmixSpace,
        stats: Vec<(usize, usize)>,
        threshold_percent: usize,
        budget_bytes: usize,
    ) -> Vec<usize>;
}

/// The policy that never defragments.
pub struct NoDefragPolicy;

impl DefragPolicy for NoDefragPolicy {
    fn select(
        &mut self,
        _space: &mut ImmixSpace,
        _stats: Vec<(usize, usize)>,
        _threshold_percent: usize,
        _budget_bytes: usize,
    ) -> Vec<usize> {
        Vec::new()
    }
}

} // verus!
