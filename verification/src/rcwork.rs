//! Reference-count work packets: increment processing with promotion
//! and opportunistic nursery evacuation, and decrement processing with
//! dead-object propagation.

use vstd::prelude::*;

verus! {

use crate::address::Address;
use crate::address::ObjectReference;
use crate::block::Block;
use crate::block::BlockState;
use crate::forwarding::FORWARDED;
use crate::forwarding::FORWARDING_NOT_TRIGGERED_YET;
use crate::memory::HeapMemory;
use crate::meta::ByteTable;
use crate::predictor::SurvivalRatioPredictorLocal;
use crate::queue::BUFFER_CAPACITY;
use crate::queue::VectorQueue;
use crate::rc::MAX_REF_COUNT;
use crate::rc::rc_inc_value;
use crate::scheduler::GCWorkScheduler;
use crate::scheduler::WorkBucketStage;
use crate::scheduler::WorkPacket;
use crate::space::ImmixSpace;

broadcast use crate::address::lemma_address_bounds, crate::address::lemma_object_reference_bounds;

/// Edge kind: the edge is a root.
pub const EDGE_KIND_ROOT: u8 = 0;
/// Edge kind: the edge sits in a nursery object.
pub const EDGE_KIND_NURSERY: u8 = 1;
/// Edge kind: the edge sits in a mature object.
pub const EDGE_KIND_MATURE: u8 = 2;

/// The word written over a dead object's header in debug runs.
pub const POISONED_DEAD_VALUE: usize = 0xdead;

/// The largest object the copy path accepts, in words.
pub const MAX_COPY_SIZE_WORDS: usize = 2048;

/// What the binding knows about one object: where it starts, how many
/// words it spans, and which word offsets hold reference fields.
pub struct ObjectLayout {
    /// The object's reference.
    pub start: ObjectReference,
    /// The object's size in words.
    pub size_words: usize,
    /// Word offsets of the reference fields within the object.
    pub field_offsets: Vec<usize>,
}

impl ObjectLayout {
    /// A layout that fits its object inside the space.
    pub open spec fn wf(self, space: ImmixSpace) -> bool {
        &&& space.in_space_pos(self.start.spec_value())
        &&& self.size_words >= 1
        &&& self.start.spec_value() + self.size_words * 8 <= space.spec_end()
        &&& forall|j: int|
            0 <= j < self.field_offsets@.len() ==> 1 <= #[trigger] self.field_offsets@[j]
                < self.size_words
    }

    /// The addresses of the reference fields.
    pub open spec fn spec_field_edge(self, j: int) -> int {
        self.start.spec_value() + self.field_offsets@[j] * 8
    }
}

/// Whether a field's target keeps a recursively generated increment:
/// the slot holds a non-null reference whose count has not saturated.
pub open spec fn spec_keeps_inc(space: ImmixSpace, mem: HeapMemory, pos: int) -> bool {
    &&& mem.spec_at(pos) != 0
    &&& space.in_space_pos(mem.spec_at(pos) as int)
    &&& space.rc.spec_counts()[space.rc.spec_index_of_pos(mem.spec_at(pos) as int)]
        != MAX_REF_COUNT
}

/// Increments to process, with the recursively generated increments
/// they spawn.
pub struct ProcessIncs {
    /// The edges whose targets gain a reference.
    pub incs: Vec<Address>,
    /// What kind of edges these are.
    pub kind: u8,
    /// Recursively generated new increments.
    pub new_incs: VectorQueue<Address>,
    /// Whether evacuation has been vetoed for this pause.
    pub no_evac: bool,
    /// How many copy steps led to this packet.
    pub depth: usize,
}

impl ProcessIncs {
    /// A packet over a buffer of edges.
    pub fn new(incs: Vec<Address>, kind: u8) -> (r: ProcessIncs)
        ensures
            r.incs@ == incs@,
            r.kind == kind,
            r.new_incs@.len() == 0,
            !r.no_evac,
            r.depth == 1,
    {
        ProcessIncs { incs, kind, new_incs: VectorQueue::new(), no_evac: false, depth: 1 }
    }

    /// A packet over a slice of an object array, whose edges are
    /// nursery edges.
    pub fn new_array_slice(slice: Vec<Address>) -> (r: ProcessIncs)
        ensures
            r.incs@ == slice@,
            r.kind == EDGE_KIND_NURSERY,
            r.new_incs@.len() == 0,
            !r.no_evac,
            r.depth == 1,
    {
        ProcessIncs {
            incs: slice,
            kind: EDGE_KIND_NURSERY,
            new_incs: VectorQueue::new(),
            no_evac: false,
            depth: 1,
        }
    }

    /// Hand the recursively generated increments to the scheduler as a
    /// fresh nursery-increment packet; nothing is emitted when none
    /// were generated.
    pub fn flush(&mut self, scheduler: &mut GCWorkScheduler)
        requires
            old(scheduler).wf(),
        ensures
            final(scheduler).wf(),
            final(self).new_incs@.len() == 0,
            *final(self) == (ProcessIncs { new_incs: final(self).new_incs, ..*old(self) }),
            old(self).new_incs@.len() == 0 ==> *final(scheduler) == *old(scheduler),
            old(self).new_incs@.len() > 0 ==> {
                &&& final(scheduler).buckets@[0].queue@.len() == old(scheduler).buckets@[0].queue@.len() + 1
                &&& (final(scheduler).buckets@[0].queue@.last() matches WorkPacket::ProcessIncs {
                    edges,
                    kind,
                } && edges@ == old(self).new_incs@ && kind == EDGE_KIND_NURSERY)
                &&& (forall|j: int|
                    0 <= j < final(scheduler).buckets@.len() && j != 0
                        ==> #[trigger] final(scheduler).buckets@[j] == old(scheduler).buckets@[j])
            },
    {
        if !self.new_incs.is_empty() {
            let new_incs = self.new_incs.take();
            scheduler.add(WorkBucketStage::Unconstrained, WorkPacket::ProcessIncs {
                edges: new_incs,
                kind: EDGE_KIND_NURSERY,
            });
        }
    }

    /// Apply one increment: raise the object's count, and report
    /// whether this was the promotion increment, the one that raised
    /// the count from zero.
    pub fn process_inc(&mut self, space: &mut ImmixSpace, o: ObjectReference) -> (promoted: bool)
        requires
            old(space).wf(),
            old(space).in_space(o),
        ensures
            final(space).wf(),
            *final(space) == (ImmixSpace { rc: final(space).rc, ..*old(space) }),
            final(space).rc.spec_counts() == old(space).rc.spec_counts().update(
                old(space).rc.spec_index_of(o),
                rc_inc_value(old(space).rc.spec_count(o)),
            ),
            promoted == (old(space).rc.spec_count(o) == 0),
            *final(self) == *old(self),
    {
        proof {
            space.lemma_word_tables(o.spec_value());
        }
        let r = space.rc.inc(o);
        match r {
            Ok(v) => v == 0,
            Err(_) => false,
        }
    }

    /// Whether evacuation is refused for this object: it lives in the
    /// large-object space, it is already mature, it sits in a block a
    /// mutator is recycling, or it is too large to copy.
    pub fn dont_evacuate(
        &self,
        space: &ImmixSpace,
        o: ObjectReference,
        los: bool,
        size_words: usize,
    ) -> (r: bool)
        requires
            space.wf(),
            space.in_space(o),
        ensures
            r == (los || space.rc.spec_count(o) != 0 || BlockState::spec_decode(
                space.block_states.spec_at(
                    crate::block::spec_block_start_containing(o.spec_value()),
                ),
            ) == BlockState::Reusing || size_words >= MAX_COPY_SIZE_WORDS),
    {
        if los {
            return true;
        }
        proof {
            space.lemma_word_tables(o.spec_value());
        }
        if space.rc.count(o) != 0 {
            return true;
        }
        let block = Block::containing(o);
        proof {
            crate::block::lemma_containing_in_space(
                o.spec_value(),
                space.spec_base(),
                space.num_blocks as int,
            );
            space.lemma_block_tables(block, 0);
        }
        if matches!(block.get_state(&space.block_states), BlockState::Reusing) {
            return true;
        }
        size_words >= MAX_COPY_SIZE_WORDS
    }

    /// Promote an object on its first increment: its containing block
    /// is flagged as promoted in place when it is a nursery block, the
    /// tail lines the object spans get their straddle bits, its
    /// interior words are unlogged so that future field writes re-enter
    /// the barrier's slow path, the promotion volume feeds the survival
    /// predictor, and each reference field holding a non-null,
    /// non-saturated target spawns a recursive increment.
    #[verifier::rlimit(100)]
    #[verifier::spinoff_prover]
    pub fn promote(
        &mut self,
        space: &mut ImmixSpace,
        mem: &HeapMemory,
        predictor: &mut SurvivalRatioPredictorLocal,
        o: ObjectReference,
        layout: &ObjectLayout,
    )
        requires
            old(space).wf(),
            old(space).in_space(o),
            layout.wf(*old(space)),
            layout.start == o,
            mem.wf(),
            mem.spec_base() == old(space).spec_base(),
            mem.spec_words().len() == old(space).num_blocks * crate::WORDS_IN_BLOCK,
        ensures
            final(space).wf(),
            *final(space) == (ImmixSpace {
                unlog_bits: final(space).unlog_bits,
                straddle_lines: final(space).straddle_lines,
                promoted_in_place: final(space).promoted_in_place,
                ..*old(space)
            }),
            forall|k: int|
                old(space).unlog_bits.spec_index_of(o.spec_value()) <= k < old(space).unlog_bits.spec_index_of(o.spec_value()) + layout.size_words ==> final(space).unlog_bits.spec_bytes()[k] == crate::barrier::UNLOGGED_VALUE,
            forall|k: int|
                0 <= k < old(space).unlog_bits.spec_bytes().len() && !(old(space).unlog_bits.spec_index_of(o.spec_value()) <= k < old(space).unlog_bits.spec_index_of(o.spec_value()) + layout.size_words) ==> final(space).unlog_bits.spec_bytes()[k] == old(space).unlog_bits.spec_bytes()[k],
            ({
                let li_first = old(space).spec_line_index_of_pos(o.spec_value());
                let li_last = old(space).spec_line_index_of_pos(
                    o.spec_value() + layout.size_words * 8 - 8,
                );
                &&& (forall|li: int|
                    li_first < li <= li_last ==> #[trigger] final(space).straddle_lines.spec_bytes()[li] == 1)
                &&& (forall|li: int|
                    0 <= li < old(space).straddle_lines.spec_bytes().len() && !(li_first < li
                        <= li_last) ==> #[trigger] final(space).straddle_lines.spec_bytes()[li]
                        == old(space).straddle_lines.spec_bytes()[li])
            }),
            final(space).promoted_in_place.spec_bytes() == (if BlockState::spec_decode(
                old(space).block_states.spec_at(
                    crate::block::spec_block_start_containing(o.spec_value()),
                ),
            ) == BlockState::Nursery {
                old(space).promoted_in_place.spec_bytes().update(
                    old(space).spec_block_index_of_pos(o.spec_value()),
                    1u8,
                )
            } else {
                old(space).promoted_in_place.spec_bytes()
            }),
            final(predictor).promote_vol == (if old(predictor).promote_vol + layout.size_words * 8
                <= usize::MAX {
                old(predictor).promote_vol + layout.size_words * 8
            } else {
                usize::MAX as int
            }),
            final(self).new_incs@ == old(self).new_incs@ + spec_retained_edges(
                *old(space),
                *mem,
                layout@,
            ),
            *final(self) == (ProcessIncs { new_incs: final(self).new_incs, ..*old(self) }),
    {
        proof {
            space.lemma_word_tables(o.spec_value());
            lemma_layout_words_in_table(*space, *layout);
        }
        let block = Block::containing(o);
        proof {
            crate::block::lemma_containing_in_space(
                o.spec_value(),
                space.spec_base(),
                space.num_blocks as int,
            );
            space.lemma_block_tables(block, 0);
            space.lemma_block_index_of_inner(o.spec_value());
        }
        let st = block.get_state(&space.block_states);
        if matches!(st, BlockState::Nursery) {
            block.set_as_in_place_promoted(&mut space.promoted_in_place);
        }
        space.set_straddle_lines(o, layout.size_words, 1);
        predictor.record_promotion(layout.size_words * 8);
        proof {
            assert(layout.wf(*space));
            lemma_layout_words_in_table(*space, *layout);
            space.lemma_word_tables(o.spec_value());
            space.unlog_bits.lemma_in_bounds(o.spec_value());
        }
        space.unlog_bits.store_range(
            o.to_address(),
            layout.size_words,
            crate::barrier::UNLOGGED_VALUE,
        );
        let ghost space_mid: ImmixSpace = *space;
        self.scan_promoted_fields(space, mem, o, layout, Ghost(space_mid));
        proof {
            lemma_retained_edges_congruence(space_mid, *old(space), *mem, layout@);
        }
    }

    /// Scan a freshly promoted object's reference fields: each
    /// non-null target with an unsaturated count spawns a recursive
    /// increment. The space is only read.
    #[verifier::rlimit(100)]
    #[verifier::spinoff_prover]
    fn scan_promoted_fields(
        &mut self,
        space: &mut ImmixSpace,
        mem: &HeapMemory,
        o: ObjectReference,
        layout: &ObjectLayout,
        Ghost(space_mid): Ghost<ImmixSpace>,
    )
        requires
            old(space).wf(),
            *old(space) == space_mid,
            old(space).in_space(o),
            layout.wf(*old(space)),
            layout.start == o,
            mem.wf(),
            mem.spec_base() == old(space).spec_base(),
            mem.spec_words().len() == old(space).num_blocks * crate::WORDS_IN_BLOCK,
        ensures
            *final(space) == space_mid,
            final(self).new_incs@ == old(self).new_incs@ + spec_retained_edges(
                space_mid,
                *mem,
                layout@,
            ),
            *final(self) == (ProcessIncs { new_incs: final(self).new_incs, ..*old(self) }),
    {
        let ghost edges_all = layout@;
        let mut j: usize = 0;
        while j < layout.field_offsets.len()
            invariant
                j <= layout.field_offsets@.len(),
                *space == space_mid,
                space.wf(),
                space.in_space(o),
                layout.start == o,
                layout.wf(*space),
                mem.wf(),
                mem.spec_base() == space.spec_base(),
                mem.spec_words().len() == space.num_blocks * crate::WORDS_IN_BLOCK,
                self.new_incs@ == old(self).new_incs@ + spec_retained_edges(
                    space_mid,
                    *mem,
                    edges_all.subrange(0, j as int),
                ),
                self.incs == old(self).incs,
                self.kind == old(self).kind,
                self.no_evac == old(self).no_evac,
                self.depth == old(self).depth,
                edges_all == layout@,
            decreases layout.field_offsets@.len() - j,
        {
            proof {
                lemma_layout_edge_in_space(*space, *layout, j as int);
                space.lemma_word_tables(layout.spec_field_edge(j as int));
            }
            let off = layout.field_offsets[j];
            let edge = o.to_address().add(off * 8);
            let target = mem.load_reference(edge);
            let mut keep = false;
            if !target.is_null() {
                let taddr = target.value();
                if taddr % 8 == 0 && taddr >= space.base.as_usize() {
                    let space_bytes = space.num_blocks * crate::BYTES_IN_BLOCK;
                    if taddr - space.base.as_usize() < space_bytes {
                        proof {
                            space.lemma_word_tables(target.spec_value());
                        }
                        if space.rc.count(target) != MAX_REF_COUNT {
                            keep = true;
                        }
                    }
                }
            }
            if keep {
                self.new_incs.push(edge);
            }
            proof {
                assert(edge.spec_usize() == edges_all[j as int]);
                crate::address::lemma_spec_address(edges_all[j as int]);
                crate::address::lemma_address_injective(
                    edge,
                    crate::address::spec_address(edges_all[j as int]),
                );
                assert(keep == spec_keeps_inc(space_mid, *mem, edges_all[j as int]));
                lemma_retained_edges_snoc(
                    space_mid,
                    *mem,
                    edges_all.subrange(0, j as int),
                    edges_all[j as int],
                );
                assert(edges_all.subrange(0, j + 1) =~= edges_all.subrange(0, j as int).push(
                    edges_all[j as int],
                ));
                assert(self.new_incs@ =~= old(self).new_incs@ + spec_retained_edges(
                    space_mid,
                    *mem,
                    edges_all.subrange(0, j + 1),
                ));
            }
            j = j + 1;
        }
        proof {
            assert(edges_all.subrange(0, edges_all.len() as int) =~= edges_all);
        }
    }
}

impl ObjectLayout {
    /// The field edge positions, in field order.
    pub open spec fn view(&self) -> Seq<int> {
        Seq::new(self.field_offsets@.len(), |j: int| self.spec_field_edge(j))
    }
}

/// The field edges retained for recursive increments: those whose
/// targets are non-null references with unsaturated counts.
pub open spec fn spec_retained_edges(space: ImmixSpace, mem: HeapMemory, edges: Seq<int>) -> Seq<
    Address,
>
    decreases edges.len(),
{
    if edges.len() == 0 {
        Seq::empty()
    } else {
        spec_retained_edges(space, mem, edges.drop_last()) + (if spec_keeps_inc(
            space,
            mem,
            edges.last(),
        ) {
            seq![crate::address::spec_address(edges.last())]
        } else {
            Seq::empty()
        })
    }
}

/// Which increments a field scan retains depends only on the counts
/// and the space's extent: two spaces agreeing there retain the same.
pub proof fn lemma_retained_edges_congruence(
    s1: ImmixSpace,
    s2: ImmixSpace,
    mem: HeapMemory,
    edges: Seq<int>,
)
    requires
        s1.rc == s2.rc,
        s1.base == s2.base,
        s1.num_blocks == s2.num_blocks,
    ensures
        spec_retained_edges(s1, mem, edges) == spec_retained_edges(s2, mem, edges),
    decreases edges.len(),
{
    if edges.len() > 0 {
        lemma_retained_edges_congruence(s1, s2, mem, edges.drop_last());
        assert(spec_keeps_inc(s1, mem, edges.last()) == spec_keeps_inc(s2, mem, edges.last()));
        assert(spec_retained_edges(s1, mem, edges) =~= spec_retained_edges(s2, mem, edges));
    } else {
        assert(spec_retained_edges(s1, mem, edges) =~= spec_retained_edges(s2, mem, edges));
    }
}

/// Appending one edge appends its retained image.
pub proof fn lemma_retained_edges_snoc(space: ImmixSpace, mem: HeapMemory, edges: Seq<int>, e: int)
    ensures
        spec_retained_edges(space, mem, edges.push(e)) == spec_retained_edges(space, mem, edges)
            + (if spec_keeps_inc(space, mem, e) {
            seq![crate::address::spec_address(e)]
        } else {
            Seq::<Address>::empty()
        }),
{
    assert(edges.push(e).drop_last() =~= edges);
    assert(edges.push(e).last() == e);
}

/// A layout's words index inside the word tables.
pub proof fn lemma_layout_words_in_table(space: ImmixSpace, layout: ObjectLayout)
    requires
        space.wf(),
        layout.wf(space),
    ensures
        space.unlog_bits.spec_index_of(layout.start.spec_value()) + layout.size_words
            <= space.unlog_bits.spec_bytes().len(),
{
    let base = space.spec_base();
    let pos = layout.start.spec_value();
    space.lemma_word_tables(pos);
    crate::meta::lemma_index_bounds(
        pos,
        base,
        8,
        (space.num_blocks * crate::WORDS_IN_BLOCK) as int,
    );
    let i0 = (pos - base) / 8;
    assert(base + i0 * 8 == pos);
    assert(space.num_blocks * crate::BYTES_IN_BLOCK == (space.num_blocks * crate::WORDS_IN_BLOCK)
        * 8) by {
        vstd::arithmetic::mul::lemma_mul_is_associative(
            space.num_blocks as int,
            crate::WORDS_IN_BLOCK as int,
            8,
        );
    }
    assert((i0 + layout.size_words) * 8 == i0 * 8 + layout.size_words * 8) by {
        vstd::arithmetic::mul::lemma_mul_is_distributive_add_other_way(
            8,
            i0,
            layout.size_words as int,
        );
    }
    let n = (space.num_blocks * crate::WORDS_IN_BLOCK) as int;
    assert(i0 + layout.size_words <= n) by {
        if i0 + layout.size_words > n {
            vstd::arithmetic::mul::lemma_mul_inequality(n + 1, i0 + layout.size_words, 8);
            assert(false);
        }
    }
}

/// A layout's field edges are word positions of the space.
pub proof fn lemma_layout_edge_in_space(space: ImmixSpace, layout: ObjectLayout, j: int)
    requires
        space.wf(),
        layout.wf(space),
        0 <= j < layout.field_offsets@.len(),
    ensures
        space.in_space_pos(layout.spec_field_edge(j)),
        layout.spec_field_edge(j) == layout.start.spec_value() + layout.field_offsets@[j] * 8,
        layout.spec_field_edge(j) < layout.start.spec_value() + layout.size_words * 8,
    {
    let off = layout.field_offsets@[j];
    assert(off * 8 < layout.size_words * 8) by {
        vstd::arithmetic::mul::lemma_mul_strict_inequality(
            off as int,
            layout.size_words as int,
            8,
        );
    }
    assert(off * 8 >= 8) by {
        vstd::arithmetic::mul::lemma_mul_inequality(1, off as int, 8);
    }
    assert((layout.start.spec_value() + off * 8) % 8 == 0) by {
        vstd::arithmetic::div_mod::lemma_mod_multiples_vanish(
            off as int,
            layout.start.spec_value(),
            8,
        );
        vstd::arithmetic::mul::lemma_mul_is_commutative(off as int, 8);
    }
}

impl ProcessIncs {
    /// Unlog a mature edge and load its target; a null target yields
    /// nothing.
    pub fn unlog_and_load_rc_object(
        &mut self,
        space: &mut ImmixSpace,
        mem: &HeapMemory,
        e: Address,
    ) -> (r: Option<ObjectReference>)
        requires
            old(space).wf(),
            old(space).in_space_pos(e.spec_usize()),
            mem.wf(),
            mem.spec_base() == old(space).spec_base(),
            mem.spec_words().len() == old(space).num_blocks * crate::WORDS_IN_BLOCK,
        ensures
            final(space).wf(),
            *final(self) == *old(self),
            *final(space) == (ImmixSpace { unlog_bits: final(space).unlog_bits, ..*old(space) }),
            old(self).kind == EDGE_KIND_MATURE ==> final(space).unlog_bits.spec_bytes() == old(space).unlog_bits.spec_bytes().update(
                old(space).unlog_bits.spec_index_of(e.spec_usize()),
                crate::barrier::UNLOGGED_VALUE,
            ),
            old(self).kind != EDGE_KIND_MATURE ==> final(space).unlog_bits == old(space).unlog_bits,
            mem.spec_at(e.spec_usize()) == 0 ==> r is None,
            mem.spec_at(e.spec_usize()) != 0 ==> r is Some && r.unwrap().spec_value()
                == mem.spec_at(e.spec_usize()),
    {
        proof {
            space.lemma_word_tables(e.spec_usize());
            crate::space::lemma_block_bytes_are_words(space.num_blocks as int);
        }
        if self.kind == EDGE_KIND_MATURE {
            space.unlog_bits.store(e, crate::barrier::UNLOGGED_VALUE);
        }
        let o = mem.load_reference(e);
        if o.is_null() {
            None
        } else {
            Some(o)
        }
    }

    /// Apply one increment with opportunistic nursery evacuation. An
    /// object that must not move — it lives in the large-object space,
    /// is already mature, sits in a recycled block, or is too large —
    /// takes the increment in place, promoting on the first one; the
    /// evacuation path is never taken for it. An already forwarded
    /// object passes the increment to its copy. A movable nursery
    /// object is copied to `copy_to`, the copy takes the increment and
    /// is promoted; with evacuation vetoed it is promoted in place.
    #[verifier::rlimit(100)]
    #[verifier::spinoff_prover]
    pub fn process_inc_and_evacuate(
        &mut self,
        space: &mut ImmixSpace,
        fwd: &mut ByteTable,
        mem: &mut HeapMemory,
        predictor: &mut SurvivalRatioPredictorLocal,
        o: ObjectReference,
        los: bool,
        layout: &ObjectLayout,
        copy_to: ObjectReference,
        copy_layout: &ObjectLayout,
    ) -> (r: ObjectReference)
        requires
            old(space).wf(),
            old(space).in_space(o),
            old(space).in_space(copy_to),
            layout.wf(*old(space)),
            layout.start == o,
            copy_layout.wf(*old(space)),
            copy_layout.start == copy_to,
            copy_layout.size_words == layout.size_words,
            copy_layout.field_offsets@ == layout.field_offsets@,
            old(fwd).wf(),
            old(fwd).spec_unit() == 8,
            old(fwd).spec_base() == old(space).spec_base(),
            old(fwd).spec_bytes().len() == old(space).num_blocks * crate::WORDS_IN_BLOCK,
            old(mem).wf(),
            old(mem).spec_base() == old(space).spec_base(),
            old(mem).spec_words().len() == old(space).num_blocks * crate::WORDS_IN_BLOCK,
            old(fwd).spec_at(o.spec_value()) == FORWARDING_NOT_TRIGGERED_YET || old(fwd).spec_at(
                o.spec_value(),
            ) == FORWARDED,
            old(fwd).spec_at(o.spec_value()) == FORWARDED ==> old(space).in_space_pos(
                old(mem).spec_at(o.spec_value()) as int,
            ),
            old(mem).spec_index_of(o.spec_value()) + layout.size_words <= old(mem).spec_index_of(copy_to.spec_value()) || old(mem).spec_index_of(copy_to.spec_value())
                + layout.size_words <= old(mem).spec_index_of(o.spec_value()),
        ensures
            final(space).wf(),
            final(fwd).wf(),
            final(mem).wf(),
            ({
                let dont = los || old(space).spec_count_at(o.spec_value()) != 0
                    || BlockState::spec_decode(
                    old(space).block_states.spec_at(
                        crate::block::spec_block_start_containing(o.spec_value()),
                    ),
                ) == BlockState::Reusing || layout.size_words >= MAX_COPY_SIZE_WORDS;
                let was_fwd = old(fwd).spec_at(o.spec_value()) == FORWARDED;
                &&& (dont ==> {
                    &&& r == o
                    &&& *final(fwd) == *old(fwd)
                    &&& *final(mem) == *old(mem)
                    &&& final(space).rc.spec_counts() == old(space).rc.spec_counts().update(
                        old(space).rc.spec_index_of(o),
                        rc_inc_value(old(space).spec_count_at(o.spec_value())),
                    )
                })
                &&& (los ==> r == o && *final(fwd) == *old(fwd) && *final(mem) == *old(mem))
                &&& (!dont && was_fwd ==> {
                    &&& r.spec_value() == old(mem).spec_at(o.spec_value())
                    &&& *final(fwd) == *old(fwd)
                    &&& *final(mem) == *old(mem)
                    &&& final(space).rc.spec_counts() == old(space).rc.spec_counts().update(
                        old(space).rc.spec_index_of(r),
                        rc_inc_value(old(space).spec_count_at(r.spec_value())),
                    )
                })
                &&& (!dont && !was_fwd && !old(self).no_evac ==> {
                    &&& r == copy_to
                    &&& final(fwd).spec_bytes() == old(fwd).spec_bytes().update(
                        old(fwd).spec_index_of(o.spec_value()),
                        FORWARDED,
                    )
                    &&& final(mem).spec_at(o.spec_value()) == copy_to.spec_value()
                    &&& (forall|k: int|
                        0 <= k < layout.size_words ==> #[trigger] final(mem).spec_words()[old(mem).spec_index_of(copy_to.spec_value()) + k] == old(mem).spec_words()[old(mem).spec_index_of(o.spec_value()) + k])
                    &&& final(space).rc.spec_count(copy_to) == rc_inc_value(
                        old(space).spec_count_at(copy_to.spec_value()),
                    )
                })
                &&& (!dont && !was_fwd && old(self).no_evac ==> {
                    &&& r == o
                    &&& final(fwd).spec_at(o.spec_value()) == FORWARDING_NOT_TRIGGERED_YET
                    &&& *final(mem) == *old(mem)
                    &&& final(space).rc.spec_count(o) == rc_inc_value(
                        old(space).spec_count_at(o.spec_value()),
                    )
                })
            }),
    {
        proof {
            space.lemma_word_tables(o.spec_value());
            space.lemma_word_tables(copy_to.spec_value());
            lemma_layout_words_in_table(*space, *layout);
            lemma_layout_words_in_table(*space, *copy_layout);
            crate::space::lemma_block_bytes_are_words(space.num_blocks as int);
        }
        if self.dont_evacuate(space, o, los, layout.size_words) {
            let promoted = self.process_inc(space, o);
            if promoted && !los {
                self.promote(space, mem, predictor, o, layout);
            }
            return o;
        }
        if crate::forwarding::is_forwarded(fwd, o) {
            let new_object = crate::forwarding::read_forwarding_pointer(fwd, mem, o);
            proof {
                space.lemma_word_tables(new_object.spec_value());
            }
            let _ = space.rc.inc(new_object);
            return new_object;
        }
        let forwarding_status = crate::forwarding::attempt_to_forward(fwd, o);
        if !self.no_evac {
            let new_object = crate::forwarding::forward_object(
                fwd,
                mem,
                o,
                copy_to,
                layout.size_words,
            );
            let _ = space.rc.inc(new_object);
            self.promote_copied(space, mem, predictor, new_object, copy_layout);
            new_object
        } else {
            let promoted = self.process_inc(space, o);
            crate::forwarding::clear_forwarding_bits(fwd, o);
            proof {
                fwd.lemma_in_bounds(o.spec_value());
            }
            if promoted {
                self.promote(space, mem, predictor, o, layout);
            }
            o
        }
    }

    /// Promote a freshly made copy: the tail lines it spans get their
    /// straddle bits, the promotion volume feeds the survival
    /// predictor, and its fields spawn recursive increments. Its words
    /// were never logged, so nothing is unlogged, and it moved, so no
    /// block is flagged as promoted in place.
    pub fn promote_copied(
        &mut self,
        space: &mut ImmixSpace,
        mem: &HeapMemory,
        predictor: &mut SurvivalRatioPredictorLocal,
        o: ObjectReference,
        layout: &ObjectLayout,
    )
        requires
            old(space).wf(),
            old(space).in_space(o),
            layout.wf(*old(space)),
            layout.start == o,
            mem.wf(),
            mem.spec_base() == old(space).spec_base(),
            mem.spec_words().len() == old(space).num_blocks * crate::WORDS_IN_BLOCK,
        ensures
            final(space).wf(),
            *final(space) == (ImmixSpace {
                straddle_lines: final(space).straddle_lines,
                ..*old(space)
            }),
            ({
                let li_first = old(space).spec_line_index_of_pos(o.spec_value());
                let li_last = old(space).spec_line_index_of_pos(
                    o.spec_value() + layout.size_words * 8 - 8,
                );
                &&& (forall|li: int|
                    li_first < li <= li_last ==> #[trigger] final(space).straddle_lines.spec_bytes()[li] == 1)
                &&& (forall|li: int|
                    0 <= li < old(space).straddle_lines.spec_bytes().len() && !(li_first < li
                        <= li_last) ==> #[trigger] final(space).straddle_lines.spec_bytes()[li]
                        == old(space).straddle_lines.spec_bytes()[li])
            }),
            final(predictor).promote_vol == (if old(predictor).promote_vol + layout.size_words * 8
                <= usize::MAX {
                old(predictor).promote_vol + layout.size_words * 8
            } else {
                usize::MAX as int
            }),
            final(self).new_incs@ == old(self).new_incs@ + spec_retained_edges(
                *old(space),
                *mem,
                layout@,
            ),
            *final(self) == (ProcessIncs { new_incs: final(self).new_incs, ..*old(self) }),
    {
        space.set_straddle_lines(o, layout.size_words, 1);
        predictor.record_promotion(layout.size_words * 8);
        proof {
            assert(layout.wf(*space));
        }
        let ghost space_mid: ImmixSpace = *space;
        self.scan_promoted_fields(space, mem, o, layout, Ghost(space_mid));
        proof {
            lemma_retained_edges_congruence(space_mid, *old(space), *mem, layout@);
        }
    }
}

/// The non-null targets of a batch of edges, in edge order: what a
/// root-edge increment batch reports back as the pause's root objects.
pub open spec fn spec_loaded_targets(mem: HeapMemory, edges: Seq<Address>) -> Seq<ObjectReference>
    decreases edges.len(),
{
    if edges.len() == 0 {
        Seq::empty()
    } else {
        spec_loaded_targets(mem, edges.drop_last()) + (if mem.spec_at(
            edges.last().spec_usize(),
        ) != 0 {
            seq![
                crate::address::spec_object_reference(
                    mem.spec_at(edges.last().spec_usize()) as int,
                ),
            ]
        } else {
            Seq::empty()
        })
    }
}

/// Appending one edge appends its loaded image.
pub proof fn lemma_loaded_targets_snoc(mem: HeapMemory, edges: Seq<Address>, e: Address)
    ensures
        spec_loaded_targets(mem, edges.push(e)) == spec_loaded_targets(mem, edges) + (
        if mem.spec_at(e.spec_usize()) != 0 {
            seq![crate::address::spec_object_reference(mem.spec_at(e.spec_usize()) as int)]
        } else {
            Seq::<ObjectReference>::empty()
        }),
{
    assert(edges.push(e).drop_last() =~= edges);
    assert(edges.push(e).last() == e);
}

impl ProcessIncs {
    /// Process the packet's main buffer without evacuation: every edge
    /// is unlogged when mature and its target's count raised, and the
    /// non-null targets come back in order — the root objects when the
    /// edges were roots.
    #[verifier::rlimit(100)]
    #[verifier::spinoff_prover]
    pub fn process_incs(&mut self, space: &mut ImmixSpace, mem: &HeapMemory) -> (roots: Vec<
        ObjectReference,
    >)
        requires
            old(space).wf(),
            forall|k: int|
                0 <= k < old(self).incs@.len() ==> old(space).in_space_pos(
                    (#[trigger] old(self).incs@[k]).spec_usize(),
                ),
            forall|k: int|
                0 <= k < old(self).incs@.len() ==> (mem.spec_at(
                    (#[trigger] old(self).incs@[k]).spec_usize(),
                ) == 0 || old(space).in_space_pos(
                    mem.spec_at(old(self).incs@[k].spec_usize()) as int,
                )),
            mem.wf(),
            mem.spec_base() == old(space).spec_base(),
            mem.spec_words().len() == old(space).num_blocks * crate::WORDS_IN_BLOCK,
        ensures
            final(space).wf(),
            *final(space) == (ImmixSpace {
                rc: final(space).rc,
                unlog_bits: final(space).unlog_bits,
                ..*old(space)
            }),
            roots@ == spec_loaded_targets(*mem, old(self).incs@),
            final(self).incs@.len() == 0,
    {
        let ghost edges_all = self.incs@;
        let mut batch: Vec<Address> = Vec::new();
        core::mem::swap(&mut batch, &mut self.incs);
        let mut roots: Vec<ObjectReference> = Vec::new();
        let mut k: usize = 0;
        let n = batch.len();
        while k < n
            invariant
                k <= n,
                n == edges_all.len(),
                batch@ == edges_all,
                old(space).wf(),
                space.wf(),
                *space == (ImmixSpace {
                    rc: space.rc,
                    unlog_bits: space.unlog_bits,
                    ..*old(space)
                }),
                mem.wf(),
                mem.spec_base() == old(space).spec_base(),
                mem.spec_words().len() == old(space).num_blocks * crate::WORDS_IN_BLOCK,
                forall|j: int|
                    0 <= j < edges_all.len() ==> old(space).in_space_pos(
                        (#[trigger] edges_all[j]).spec_usize(),
                    ),
                forall|j: int|
                    0 <= j < edges_all.len() ==> (mem.spec_at(
                        (#[trigger] edges_all[j]).spec_usize(),
                    ) == 0 || old(space).in_space_pos(
                        mem.spec_at(edges_all[j].spec_usize()) as int,
                    )),
                roots@ == spec_loaded_targets(*mem, edges_all.subrange(0, k as int)),
                self.kind == old(self).kind,
                self.incs@.len() == 0,
            decreases n - k,
        {
            let e = batch[k];
            let loaded = self.unlog_and_load_rc_object(space, mem, e);
            match loaded {
                Some(o) => {
                    proof {
                        crate::address::lemma_spec_object_reference(
                            mem.spec_at(e.spec_usize()) as int,
                        );
                        crate::address::lemma_object_reference_injective(
                            o,
                            crate::address::spec_object_reference(
                                mem.spec_at(e.spec_usize()) as int,
                            ),
                        );
                    }
                    let _ = self.process_inc(space, o);
                    roots.push(o);
                },
                None => {},
            }
            proof {
                lemma_loaded_targets_snoc(*mem, edges_all.subrange(0, k as int), edges_all[
                    k as int]);
                assert(edges_all.subrange(0, k + 1) =~= edges_all.subrange(0, k as int).push(
                    edges_all[k as int],
                ));
                assert(roots@ =~= spec_loaded_targets(*mem, edges_all.subrange(0, k + 1)));
            }
            k = k + 1;
        }
        proof {
            assert(edges_all.subrange(0, edges_all.len() as int) =~= edges_all);
        }
        roots
    }
}

/// The objects retained for recursive decrements out of a dead
/// object's fields: non-null in-space targets whose counts are neither
/// zero nor saturated.
pub open spec fn spec_keeps_dec(space: ImmixSpace, mem: HeapMemory, pos: int) -> bool {
    &&& mem.spec_at(pos) != 0
    &&& space.in_space_pos(mem.spec_at(pos) as int)
    &&& space.rc.spec_counts()[space.rc.spec_index_of_pos(mem.spec_at(pos) as int)] != 0
    &&& space.rc.spec_counts()[space.rc.spec_index_of_pos(mem.spec_at(pos) as int)]
        != MAX_REF_COUNT
}

/// The field targets retained for recursive decrements, in field order.
pub open spec fn spec_retained_decs(space: ImmixSpace, mem: HeapMemory, edges: Seq<int>) -> Seq<
    ObjectReference,
>
    decreases edges.len(),
{
    if edges.len() == 0 {
        Seq::empty()
    } else {
        spec_retained_decs(space, mem, edges.drop_last()) + (if spec_keeps_dec(
            space,
            mem,
            edges.last(),
        ) {
            seq![crate::address::spec_object_reference(mem.spec_at(edges.last()) as int)]
        } else {
            Seq::empty()
        })
    }
}

/// Appending one edge appends its retained image.
pub proof fn lemma_retained_decs_snoc(space: ImmixSpace, mem: HeapMemory, edges: Seq<int>, e: int)
    ensures
        spec_retained_decs(space, mem, edges.push(e)) == spec_retained_decs(space, mem, edges) + (
        if spec_keeps_dec(space, mem, e) {
            seq![crate::address::spec_object_reference(mem.spec_at(e) as int)]
        } else {
            Seq::<ObjectReference>::empty()
        }),
{
    assert(edges.push(e).drop_last() =~= edges);
    assert(edges.push(e).last() == e);
}

/// Decrements to process, with the recursive decrements they spawn and
/// the residue handed to the concurrent markers. The ghost account of
/// emitted decrements ties the packets a worker produced to the
/// decrements it discovered: nothing is lost across capacity flushes.
pub struct ProcessDecs {
    /// The objects that lost a reference.
    pub decs: Vec<ObjectReference>,
    /// Recursively generated new decrements, kept under the buffer
    /// capacity between calls.
    pub new_decs: VectorQueue<ObjectReference>,
    /// Objects to hand to the concurrent markers.
    pub mark_objects: VectorQueue<ObjectReference>,
    /// Whether concurrent marking runs alongside this packet.
    pub concurrent_marking_in_progress: bool,
    /// Whether a mature sweep from the previous pause is still running.
    pub mature_sweeping_in_progress: bool,
    /// Every decrement already drained into packets, in drain order.
    pub emitted_decs: Ghost<Seq<ObjectReference>>,
}

impl ProcessDecs {
    /// A packet over a buffer of objects.
    pub fn new(decs: Vec<ObjectReference>) -> (r: ProcessDecs)
        ensures
            r.decs@ == decs@,
            r.new_decs@.len() == 0,
            r.mark_objects@.len() == 0,
            r.emitted_decs@ == Seq::<ObjectReference>::empty(),
            !r.concurrent_marking_in_progress,
            !r.mature_sweeping_in_progress,
    {
        ProcessDecs {
            decs,
            new_decs: VectorQueue::new(),
            mark_objects: VectorQueue::new(),
            concurrent_marking_in_progress: false,
            mature_sweeping_in_progress: false,
            emitted_decs: Ghost(Seq::empty()),
        }
    }

    /// A packet over a shared buffer of objects, as lazy decrement
    /// processing hands one batch to several packets.
    pub fn new_arc(decs: std::sync::Arc<Vec<ObjectReference>>) -> (r: ProcessDecs)
        ensures
            r.decs@ == decs@,
            r.new_decs@.len() == 0,
            r.mark_objects@.len() == 0,
            r.emitted_decs@ == Seq::<ObjectReference>::empty(),
    {
        let mut copied: Vec<ObjectReference> = Vec::new();
        let n = decs.len();
        let mut i: usize = 0;
        while i < n
            invariant
                i <= n,
                n == decs@.len(),
                copied@ == decs@.subrange(0, i as int),
            decreases n - i,
        {
            copied.push(decs[i]);
            proof {
                assert(copied@ =~= decs@.subrange(0, i + 1));
            }
            i = i + 1;
        }
        proof {
            assert(copied@ =~= decs@);
        }
        ProcessDecs::new(copied)
    }

    /// A packet over a slice of an object array.
    pub fn new_array_slice(slice: Vec<ObjectReference>, not_marked: bool) -> (r: ProcessDecs)
        ensures
            r.decs@ == slice@,
            r.new_decs@.len() == 0,
            r.mark_objects@.len() == 0,
            r.emitted_decs@ == Seq::<ObjectReference>::empty(),
            r.concurrent_marking_in_progress == not_marked,
    {
        let mut r = ProcessDecs::new(slice);
        r.concurrent_marking_in_progress = not_marked;
        r
    }

    /// Record a recursively generated decrement; a buffer that reaches
    /// its capacity is drained into a fresh decrement packet, so the
    /// buffer always leaves under capacity.
    pub fn recursive_dec(
        &mut self,
        scheduler: &mut GCWorkScheduler,
        during_pause: bool,
        o: ObjectReference,
    )
        requires
            old(scheduler).wf(),
        ensures
            final(scheduler).wf(),
            final(self).emitted_decs@ + final(self).new_decs@ == old(self).emitted_decs@ + old(self).new_decs@.push(o),
            final(self).new_decs@.len() < BUFFER_CAPACITY,
            *final(self) == (ProcessDecs {
                new_decs: final(self).new_decs,
                emitted_decs: final(self).emitted_decs,
                ..*old(self)
            }),
            old(self).new_decs@.len() + 1 < BUFFER_CAPACITY ==> {
                &&& final(self).new_decs@ == old(self).new_decs@.push(o)
                &&& final(self).emitted_decs@ == old(self).emitted_decs@
                &&& *final(scheduler) == *old(scheduler)
            },
            old(self).new_decs@.len() + 1 >= BUFFER_CAPACITY ==> {
                &&& final(self).new_decs@.len() == 0
                &&& final(self).emitted_decs@ == old(self).emitted_decs@ + old(self).new_decs@.push(o)
                &&& (during_pause ==> (final(scheduler).buckets@[0].queue@.last() matches
                    WorkPacket::ProcessDecs { objects } && objects@ == old(self).new_decs@.push(
                    o,
                )))
                &&& (!during_pause ==> (final(scheduler).buckets@[0].prioritized_queue@.last()
                    matches WorkPacket::ProcessDecs { objects } && objects@ == old(self).new_decs@.push(o)))
            },
            spec_scheduler_only_fed(*old(scheduler), *final(scheduler)),
    {
        self.new_decs.push(o);
        if self.new_decs.is_full() {
            self.flush(scheduler, during_pause);
            proof {
                assert(final(self).emitted_decs@ + final(self).new_decs@ =~= old(self).emitted_decs@ + old(self).new_decs@.push(o));
            }
        } else {
            proof {
                assert(final(self).emitted_decs@ + final(self).new_decs@ =~= old(self).emitted_decs@ + old(self).new_decs@.push(o));
            }
        }
    }

    /// Hand the recursive decrements to the scheduler as a fresh
    /// decrement packet, prioritized outside a pause; nothing is
    /// emitted when none were generated. The drained decrements move
    /// onto the emitted account.
    pub fn flush(&mut self, scheduler: &mut GCWorkScheduler, during_pause: bool)
        requires
            old(scheduler).wf(),
        ensures
            final(scheduler).wf(),
            final(self).new_decs@.len() == 0,
            final(self).emitted_decs@ == old(self).emitted_decs@ + old(self).new_decs@,
            *final(self) == (ProcessDecs {
                new_decs: final(self).new_decs,
                emitted_decs: final(self).emitted_decs,
                ..*old(self)
            }),
            old(self).new_decs@.len() == 0 ==> *final(scheduler) == *old(scheduler),
            old(self).new_decs@.len() > 0 && during_pause ==> {
                &&& final(scheduler).buckets@[0].queue@ == old(scheduler).buckets@[0].queue@.push(final(scheduler).buckets@[0].queue@.last())
                &&& (final(scheduler).buckets@[0].queue@.last() matches WorkPacket::ProcessDecs {
                    objects,
                } && objects@ == old(self).new_decs@)
                &&& final(scheduler).buckets@[0].prioritized_queue@ == old(scheduler).buckets@[0].prioritized_queue@
            },
            old(self).new_decs@.len() > 0 && !during_pause ==> {
                &&& final(scheduler).buckets@[0].prioritized_queue@ == old(scheduler).buckets@[0].prioritized_queue@.push(
                    final(scheduler).buckets@[0].prioritized_queue@.last(),
                )
                &&& (final(scheduler).buckets@[0].prioritized_queue@.last() matches
                    WorkPacket::ProcessDecs { objects } && objects@ == old(self).new_decs@)
                &&& final(scheduler).buckets@[0].queue@ == old(scheduler).buckets@[0].queue@
            },
            spec_scheduler_only_fed(*old(scheduler), *final(scheduler)),
    {
        if !self.new_decs.is_empty() {
            let new_decs = self.new_decs.take();
            proof {
                self.emitted_decs@ = self.emitted_decs@ + new_decs@;
            }
            let w = WorkPacket::ProcessDecs { objects: new_decs };
            if during_pause {
                scheduler.add(WorkBucketStage::Unconstrained, w);
            } else {
                scheduler.add_prioritized(WorkBucketStage::Unconstrained, w);
            }
        } else {
            proof {
                assert(final(self).emitted_decs@ =~= old(self).emitted_decs@ + old(self).new_decs@);
            }
        }
    }

    /// Process an object whose count reached zero: each field target
    /// with a live, unsaturated count gains a recursive decrement
    /// (drained into packets at the buffer capacity), the straddle
    /// bits of the lines the object spans are cleared, the object's
    /// first word is overwritten with the poison value, and its block
    /// joins the possibly-dead mature blocks.
    #[verifier::rlimit(100)]
    #[verifier::spinoff_prover]
    pub fn process_dead_object(
        &mut self,
        space: &mut ImmixSpace,
        mem: &mut HeapMemory,
        scheduler: &mut GCWorkScheduler,
        during_pause: bool,
        o: ObjectReference,
        layout: &ObjectLayout,
    )
        requires
            old(space).wf(),
            old(space).in_space(o),
            layout.wf(*old(space)),
            layout.start == o,
            old(mem).wf(),
            old(mem).spec_base() == old(space).spec_base(),
            old(mem).spec_words().len() == old(space).num_blocks * crate::WORDS_IN_BLOCK,
            old(scheduler).wf(),
        ensures
            final(space).wf(),
            final(mem).wf(),
            final(scheduler).wf(),
            *final(space) == (ImmixSpace {
                straddle_lines: final(space).straddle_lines,
                possibly_dead_mature_blocks: final(space).possibly_dead_mature_blocks,
                ..*old(space)
            }),
            final(space).possibly_dead_mature_blocks@.len() == old(space).possibly_dead_mature_blocks@.len() + 1,
            final(space).possibly_dead_mature_blocks@.subrange(
                0,
                old(space).possibly_dead_mature_blocks@.len() as int,
            ) == old(space).possibly_dead_mature_blocks@,
            final(space).possibly_dead_mature_blocks@.last().spec_start()
                == crate::block::spec_block_start_containing(o.spec_value()),
            ({
                let li_first = old(space).spec_line_index_of_pos(o.spec_value());
                let li_last = old(space).spec_line_index_of_pos(
                    o.spec_value() + layout.size_words * 8 - 8,
                );
                &&& (forall|li: int|
                    li_first < li <= li_last ==> #[trigger] final(space).straddle_lines.spec_bytes()[li] == 0)
                &&& (forall|li: int|
                    0 <= li < old(space).straddle_lines.spec_bytes().len() && !(li_first < li
                        <= li_last) ==> #[trigger] final(space).straddle_lines.spec_bytes()[li]
                        == old(space).straddle_lines.spec_bytes()[li])
            }),
            final(mem).spec_words() == old(mem).spec_words().update(
                old(mem).spec_index_of(o.spec_value()),
                POISONED_DEAD_VALUE,
            ),
            final(self).emitted_decs@ + final(self).new_decs@ == old(self).emitted_decs@ + old(self).new_decs@ + spec_retained_decs(*old(space), *old(mem), layout@),
            spec_retained_decs(*old(space), *old(mem), layout@).len() > 0 ==> final(self).new_decs@.len() < BUFFER_CAPACITY,
            spec_retained_decs(*old(space), *old(mem), layout@).len() == 0 ==> final(self).new_decs@ == old(self).new_decs@ && final(self).emitted_decs@ == old(self).emitted_decs@ && *final(scheduler) == *old(scheduler),
            *final(self) == (ProcessDecs {
                new_decs: final(self).new_decs,
                emitted_decs: final(self).emitted_decs,
                ..*old(self)
            }),
            spec_scheduler_only_fed(*old(scheduler), *final(scheduler)),
    {
        proof {
            space.lemma_word_tables(o.spec_value());
            crate::space::lemma_block_bytes_are_words(space.num_blocks as int);
        }
        let ghost edges_all = layout@;
        let mut j: usize = 0;
        while j < layout.field_offsets.len()
            invariant
                j <= layout.field_offsets@.len(),
                old(space).wf(),
                old(space).in_space(o),
                layout.start == o,
                layout.wf(*old(space)),
                *space == *old(space),
                mem.wf(),
                *mem == *old(mem),
                mem.spec_base() == old(space).spec_base(),
                mem.spec_words().len() == old(space).num_blocks * crate::WORDS_IN_BLOCK,
                scheduler.wf(),
                self.emitted_decs@ + self.new_decs@ == old(self).emitted_decs@ + old(self).new_decs@ + spec_retained_decs(
                    *old(space),
                    *old(mem),
                    edges_all.subrange(0, j as int),
                ),
                spec_retained_decs(*old(space), *old(mem), edges_all.subrange(0, j as int)).len()
                    > 0 ==> self.new_decs@.len() < BUFFER_CAPACITY,
                spec_retained_decs(*old(space), *old(mem), edges_all.subrange(0, j as int)).len()
                    == 0 ==> self.new_decs@ == old(self).new_decs@ && self.emitted_decs@ == old(self).emitted_decs@ && *scheduler == *old(scheduler),
                self.decs == old(self).decs,
                self.mark_objects == old(self).mark_objects,
                self.concurrent_marking_in_progress == old(self).concurrent_marking_in_progress,
                self.mature_sweeping_in_progress == old(self).mature_sweeping_in_progress,
                spec_scheduler_only_fed(*old(scheduler), *scheduler),
                edges_all == layout@,
            decreases layout.field_offsets@.len() - j,
        {
            proof {
                lemma_layout_edge_in_space(*old(space), *layout, j as int);
                space.lemma_word_tables(layout.spec_field_edge(j as int));
            }
            let off = layout.field_offsets[j];
            let edge = o.to_address().add(off * 8);
            let target = mem.load_reference(edge);
            let mut keep = false;
            if !target.is_null() {
                let taddr = target.value();
                if taddr % 8 == 0 && taddr >= space.base.as_usize() {
                    if taddr - space.base.as_usize() < space.num_blocks
                        * crate::BYTES_IN_BLOCK {
                        proof {
                            space.lemma_word_tables(target.spec_value());
                        }
                        let c = space.rc.count(target);
                        if c != 0 && c != MAX_REF_COUNT {
                            keep = true;
                        }
                    }
                }
            }
            let ghost pre_self: ProcessDecs = *self;
            let ghost pre_sched: GCWorkScheduler = *scheduler;
            if keep {
                self.recursive_dec(scheduler, during_pause, target);
            }
            proof {
                assert(edge.spec_usize() == edges_all[j as int]);
                if keep {
                    crate::address::lemma_spec_object_reference(
                        mem.spec_at(edges_all[j as int]) as int,
                    );
                    crate::address::lemma_object_reference_injective(
                        target,
                        crate::address::spec_object_reference(
                            mem.spec_at(edges_all[j as int]) as int,
                        ),
                    );
                }
                assert(keep == spec_keeps_dec(*old(space), *old(mem), edges_all[j as int]));
                lemma_retained_decs_snoc(
                    *old(space),
                    *old(mem),
                    edges_all.subrange(0, j as int),
                    edges_all[j as int],
                );
                assert(edges_all.subrange(0, j + 1) =~= edges_all.subrange(0, j as int).push(
                    edges_all[j as int],
                ));
                if keep {
                    assert(spec_retained_decs(
                        *old(space),
                        *old(mem),
                        edges_all.subrange(0, j + 1),
                    ) =~= spec_retained_decs(
                        *old(space),
                        *old(mem),
                        edges_all.subrange(0, j as int),
                    ) + seq![target]);
                    assert(self.emitted_decs@ + self.new_decs@ =~= (pre_self.emitted_decs@
                        + pre_self.new_decs@) + seq![target]);
                    assert(self.emitted_decs@ + self.new_decs@ =~= old(self).emitted_decs@ + old(self).new_decs@ + spec_retained_decs(
                        *old(space),
                        *old(mem),
                        edges_all.subrange(0, j + 1),
                    ));
                    lemma_scheduler_only_fed_transitive(*old(scheduler), pre_sched, *scheduler);
                } else {
                    assert(self.emitted_decs@ + self.new_decs@ =~= old(self).emitted_decs@ + old(self).new_decs@ + spec_retained_decs(
                        *old(space),
                        *old(mem),
                        edges_all.subrange(0, j + 1),
                    ));
                }
            }
            j = j + 1;
        }
        proof {
            assert(edges_all.subrange(0, edges_all.len() as int) =~= edges_all);
        }
        space.set_straddle_lines(o, layout.size_words, 0);
        mem.store(o.to_address(), POISONED_DEAD_VALUE);
        let block = Block::containing(o);
        self.possibly_dead(space, block);
    }

    /// Record a block that may now hold only dead objects.
    fn possibly_dead(&self, space: &mut ImmixSpace, block: Block)
        ensures
            *final(space) == (ImmixSpace {
                possibly_dead_mature_blocks: final(space).possibly_dead_mature_blocks,
                ..*old(space)
            }),
            final(space).possibly_dead_mature_blocks@ == old(space).possibly_dead_mature_blocks@.push(block),
    {
        space.possibly_dead_mature_blocks.push(block);
    }

    /// Apply one decrement: a null, dead or saturated target is left
    /// alone; a count that reaches zero triggers dead-object
    /// processing, with everything else in the space untouched.
    #[verifier::rlimit(100)]
    #[verifier::spinoff_prover]
    pub fn process_dec(
        &mut self,
        space: &mut ImmixSpace,
        mem: &mut HeapMemory,
        scheduler: &mut GCWorkScheduler,
        during_pause: bool,
        o: ObjectReference,
        layout: &ObjectLayout,
    )
        requires
            old(space).wf(),
            old(space).in_space(o),
            old(space).spec_count_at(o.spec_value()) == 0 || old(space).spec_count_at(
                o.spec_value(),
            ) == MAX_REF_COUNT || layout.wf(*old(space)) && layout.start == o,
            old(mem).wf(),
            old(mem).spec_base() == old(space).spec_base(),
            old(mem).spec_words().len() == old(space).num_blocks * crate::WORDS_IN_BLOCK,
            old(scheduler).wf(),
        ensures
            final(space).wf(),
            final(mem).wf(),
            final(scheduler).wf(),
            spec_scheduler_only_fed(*old(scheduler), *final(scheduler)),
            ({
                let c = old(space).spec_count_at(o.spec_value());
                &&& (c == 0 || c == MAX_REF_COUNT ==> *final(space) == *old(space) && *final(mem)
                    == *old(mem) && *final(self) == *old(self) && *final(scheduler) == *old(scheduler))
                &&& (1 < c < MAX_REF_COUNT ==> {
                    &&& *final(space) == (ImmixSpace { rc: final(space).rc, ..*old(space) })
                    &&& final(space).rc.spec_counts() == old(space).rc.spec_counts().update(
                        old(space).rc.spec_index_of(o),
                        (c - 1) as u8,
                    )
                    &&& *final(mem) == *old(mem)
                    &&& *final(self) == *old(self)
                    &&& *final(scheduler) == *old(scheduler)
                })
                &&& (c == 1 ==> {
                    &&& *final(space) == (ImmixSpace {
                        rc: final(space).rc,
                        straddle_lines: final(space).straddle_lines,
                        possibly_dead_mature_blocks: final(space).possibly_dead_mature_blocks,
                        ..*old(space)
                    })
                    &&& final(space).rc.spec_counts() == old(space).rc.spec_counts().update(
                        old(space).rc.spec_index_of(o),
                        0u8,
                    )
                    &&& final(self).emitted_decs@ + final(self).new_decs@ == old(self).emitted_decs@ + old(self).new_decs@ + spec_retained_decs(
                        (ImmixSpace { rc: final(space).rc, ..*old(space) }),
                        *old(mem),
                        layout@,
                    )
                    &&& final(space).possibly_dead_mature_blocks@.len() == old(space).possibly_dead_mature_blocks@.len() + 1
                    &&& final(mem).spec_words() == old(mem).spec_words().update(
                        old(mem).spec_index_of(o.spec_value()),
                        POISONED_DEAD_VALUE,
                    )
                    &&& (forall|li: int|
                        0 <= li < old(space).straddle_lines.spec_bytes().len() && !(old(space).spec_line_index_of_pos(o.spec_value()) < li <= old(space).spec_line_index_of_pos(o.spec_value() + layout.size_words * 8 - 8))
                            ==> #[trigger] final(space).straddle_lines.spec_bytes()[li] == old(space).straddle_lines.spec_bytes()[li])
                    &&& (forall|li: int|
                        old(space).spec_line_index_of_pos(o.spec_value()) < li <= old(space).spec_line_index_of_pos(o.spec_value() + layout.size_words * 8 - 8)
                            ==> #[trigger] final(space).straddle_lines.spec_bytes()[li] == 0)
                })
            }),
    {
        proof {
            space.lemma_word_tables(o.spec_value());
        }
        if space.rc.is_dead_or_stuck(o) {
            return ;
        }
        let r = space.rc.dec(o);
        let dead = match r {
            Ok(v) => v == 1,
            Err(_) => false,
        };
        if dead {
            self.process_dead_object(space, mem, scheduler, during_pause, o, layout);
        }
    }
}

/// The scheduler changed only by feeding the unconstrained bucket:
/// its queues grew by appended packets and everything else stands.
pub open spec fn spec_scheduler_only_fed(pre: GCWorkScheduler, post: GCWorkScheduler) -> bool {
    &&& post.buckets@.len() == pre.buckets@.len()
    &&& pre.buckets@[0].queue@.is_prefix_of(post.buckets@[0].queue@)
    &&& pre.buckets@[0].prioritized_queue@.is_prefix_of(post.buckets@[0].prioritized_queue@)
    &&& post.buckets@[0].active == pre.buckets@[0].active
    &&& (forall|j: int| 1 <= j < pre.buckets@.len() ==> #[trigger] post.buckets@[j] == pre.buckets@[j])
    &&& post.postponed@ == pre.postponed@
    &&& post.postponed_prioritized@ == pre.postponed_prioritized@
    &&& post.parked_workers == pre.parked_workers
    &&& post.num_workers == pre.num_workers
    &&& post.gc_status == pre.gc_status
    &&& post.scanned_stacks == pre.scanned_stacks
}

/// Feeding the unconstrained bucket composes.
pub proof fn lemma_scheduler_only_fed_transitive(
    a: GCWorkScheduler,
    b: GCWorkScheduler,
    c: GCWorkScheduler,
)
    requires
        spec_scheduler_only_fed(a, b),
        spec_scheduler_only_fed(b, c),
    ensures
        spec_scheduler_only_fed(a, c),
{
    lemma_prefix_transitive(a.buckets@[0].queue@, b.buckets@[0].queue@, c.buckets@[0].queue@);
    lemma_prefix_transitive(
        a.buckets@[0].prioritized_queue@,
        b.buckets@[0].prioritized_queue@,
        c.buckets@[0].prioritized_queue@,
    );
}

/// A prefix of a prefix is a prefix.
pub proof fn lemma_prefix_transitive(
    a: Seq<WorkPacket>,
    b: Seq<WorkPacket>,
    c: Seq<WorkPacket>,
)
    requires
        a.is_prefix_of(b),
        b.is_prefix_of(c),
    ensures
        a.is_prefix_of(c),
{
    assert(a =~= c.subrange(0, a.len() as int));
}

impl ImmixSpace {
    /// The reference count recorded at a word position.
    pub open spec fn spec_count_at(self, pos: int) -> u8 {
        self.rc.spec_counts()[self.rc.spec_index_of_pos(pos)]
    }
}

/// The root-edge collector of a reference-counting pause: the roots
/// reported by stack scanning become one increment packet, processed
/// immediately.
pub struct RCImmixCollectRootEdges {
    /// The shared edge-processing state.
    pub base: crate::scheduler::ProcessEdgesBase,
}

impl RCImmixCollectRootEdges {
    /// A collector over a batch of root edges.
    pub fn new(edges: Vec<Address>) -> (r: RCImmixCollectRootEdges)
        ensures
            r.base.edges@ == edges@,
            r.base.roots,
    {
        RCImmixCollectRootEdges { base: crate::scheduler::ProcessEdgesBase::new(edges, true) }
    }

    /// Turn the root edges into a root-kind increment packet.
    pub fn process_edges(&mut self) -> (r: Option<ProcessIncs>)
        ensures
            old(self).base.edges@.len() == 0 ==> r is None,
            old(self).base.edges@.len() > 0 ==> {
                &&& r is Some
                &&& r.unwrap().incs@ == old(self).base.edges@
                &&& r.unwrap().kind == EDGE_KIND_ROOT
            },
            final(self).base.edges@.len() == 0,
    {
        if self.base.edges.len() > 0 {
            let mut roots: Vec<Address> = Vec::new();
            core::mem::swap(&mut roots, &mut self.base.edges);
            Some(ProcessIncs::new(roots, EDGE_KIND_ROOT))
        } else {
            None
        }
    }
}

} // verus!
