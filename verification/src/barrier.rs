//! Write barriers: per-field logging with reference-count maintenance,
//! and object remembering as the simpler variant.
//!
//! The field-logging barrier locks an edge, reads the old target,
//! marks the edge logged, and records a decrement for the old target
//! and an increment for the edge. Buffers that reach their capacity
//! are flushed into work packets.

use vstd::prelude::*;

verus! {

use crate::address::Address;
use crate::address::ObjectReference;
use crate::memory::HeapMemory;
use crate::queue::BUFFER_CAPACITY;
use crate::queue::VectorQueue;
use crate::scheduler::GCWorkScheduler;
use crate::scheduler::WorkBucketStage;
use crate::scheduler::WorkPacket;
use crate::space::ImmixSpace;

/// Log-bit value: the barrier has logged this edge.
pub const LOGGED_VALUE: u8 = 1;
/// Log-bit value: a write to this edge must take the slow path.
pub const UNLOGGED_VALUE: u8 = 0;
/// Lock-bit value: the edge is locked against concurrent logging.
pub const LOCKED_VALUE: u8 = 1;
/// Lock-bit value: the edge is free.
pub const UNLOCKED_VALUE: u8 = 0;

/// Which barrier a plan installs.
#[derive(Copy, Clone, Debug, PartialEq, Eq, Structural)]
pub enum BarrierSelector {
    /// No write barrier at all.
    NoBarrier,
    /// Remember written-to objects.
    ObjectBarrier,
    /// Log written-to fields, with reference-count maintenance.
    FieldLoggingBarrier,
}

/// A write as the binding reports it to the barrier.
pub enum WriteTarget {
    /// A single field store.
    Field {
        /// The object written into.
        src: ObjectReference,
        /// The field's address.
        slot: Address,
        /// The reference being stored.
        val: ObjectReference,
    },
    /// A bulk copy into an array.
    ArrayCopy {
        /// The first destination slot.
        dst_start: Address,
        /// The references being stored, one per destination slot.
        values: Vec<ObjectReference>,
    },
    /// A wholesale object clone: the copy's references each gain a
    /// reference.
    Clone {
        /// The copy written into.
        dst: crate::rcwork::ObjectLayout,
    },
}

/// The field-logging barrier of the reference-counting plan: buffers
/// of increments, decrements and loaded references, flushed as work
/// packets.
///
/// Its invariant is the logging discipline: an edge whose log bit is
/// set was either recorded in the increment buffer or already handed
/// to an enqueued barrier packet. Nothing else ever sets a log bit.
pub struct LXRFieldBarrierSemantics {
    /// Edges whose increments are pending.
    pub incs: VectorQueue<Address>,
    /// Old targets whose decrements are pending.
    pub decs: VectorQueue<ObjectReference>,
    /// References loaded while concurrent marking runs.
    pub refs: VectorQueue<ObjectReference>,
    /// The positions of edges already flushed into packets.
    pub emitted: Ghost<Set<int>>,
}

impl LXRFieldBarrierSemantics {
    /// Whether the increment buffer records an edge at this position.
    pub open spec fn spec_incs_contains(self, pos: int) -> bool {
        exists|j: int| 0 <= j < self.incs@.len() && self.incs@[j].spec_usize() == pos
    }

    /// The logging discipline: every logged edge is covered, either by
    /// the increment buffer or by a packet flushed earlier.
    pub open spec fn inv(self, space: ImmixSpace) -> bool {
        forall|pos: int|
            space.unlog_bits.in_range(pos) && space.unlog_bits.spec_at(pos) == LOGGED_VALUE
                ==> self.spec_incs_contains(pos) || self.emitted@.contains(pos)
    }

    /// A fresh barrier with empty buffers.
    pub fn new() -> (r: LXRFieldBarrierSemantics)
        ensures
            r.incs@.len() == 0,
            r.decs@.len() == 0,
            r.refs@.len() == 0,
            r.emitted@ == Set::<int>::empty(),
    {
        LXRFieldBarrierSemantics {
            incs: VectorQueue::new(),
            decs: VectorQueue::new(),
            refs: VectorQueue::new(),
            emitted: Ghost(Set::empty()),
        }
    }

    /// The log bit of an edge.
    pub fn get_edge_logging_state(&self, space: &ImmixSpace, edge: Address) -> (r: u8)
        requires
            space.wf(),
            space.in_space_pos(edge.spec_usize()),
        ensures
            r == space.unlog_bits.spec_at(edge.spec_usize()),
    {
        proof {
            space.lemma_word_tables(edge.spec_usize());
        }
        space.unlog_bits.load(edge)
    }

    /// Lock the edge's lock bit, bailing out if the edge is already
    /// logged. Returns whether the lock was taken.
    pub fn attempt_to_lock_edge_bailout_if_logged(
        &self,
        space: &mut ImmixSpace,
        edge: Address,
    ) -> (r: bool)
        requires
            old(space).wf(),
            old(space).in_space_pos(edge.spec_usize()),
            old(space).lock_bits.spec_at(edge.spec_usize()) == UNLOCKED_VALUE,
        ensures
            final(space).wf(),
            r == (old(space).unlog_bits.spec_at(edge.spec_usize()) != LOGGED_VALUE),
            !r ==> *final(space) == *old(space),
            r ==> {
                &&& *final(space) == (ImmixSpace {
                    lock_bits: final(space).lock_bits,
                    ..*old(space)
                })
                &&& final(space).lock_bits.spec_bytes() == old(space).lock_bits.spec_bytes().update(
                    old(space).lock_bits.spec_index_of(edge.spec_usize()),
                    LOCKED_VALUE,
                )
            },
    {
        proof {
            space.lemma_word_tables(edge.spec_usize());
        }
        if self.get_edge_logging_state(space, edge) == LOGGED_VALUE {
            return false;
        }
        space.lock_bits.store(edge, LOCKED_VALUE);
        true
    }

    /// Release the edge's lock bit.
    pub fn unlock_edge(&self, space: &mut ImmixSpace, edge: Address)
        requires
            old(space).wf(),
            old(space).in_space_pos(edge.spec_usize()),
        ensures
            final(space).wf(),
            *final(space) == (ImmixSpace { lock_bits: final(space).lock_bits, ..*old(space) }),
            final(space).lock_bits.spec_bytes() == old(space).lock_bits.spec_bytes().update(
                old(space).lock_bits.spec_index_of(edge.spec_usize()),
                UNLOCKED_VALUE,
            ),
    {
        proof {
            space.lemma_word_tables(edge.spec_usize());
        }
        space.lock_bits.store(edge, UNLOCKED_VALUE);
    }

    /// Mark the edge logged and release its lock bit.
    pub fn log_and_unlock_edge(&self, space: &mut ImmixSpace, edge: Address)
        requires
            old(space).wf(),
            old(space).in_space_pos(edge.spec_usize()),
        ensures
            final(space).wf(),
            *final(space) == (ImmixSpace {
                unlog_bits: final(space).unlog_bits,
                lock_bits: final(space).lock_bits,
                ..*old(space)
            }),
            final(space).unlog_bits.spec_bytes() == old(space).unlog_bits.spec_bytes().update(
                old(space).unlog_bits.spec_index_of(edge.spec_usize()),
                LOGGED_VALUE,
            ),
            final(space).lock_bits.spec_bytes() == old(space).lock_bits.spec_bytes().update(
                old(space).lock_bits.spec_index_of(edge.spec_usize()),
                UNLOCKED_VALUE,
            ),
    {
        proof {
            space.lemma_word_tables(edge.spec_usize());
        }
        space.unlog_bits.store(edge, LOGGED_VALUE);
        space.lock_bits.store(edge, UNLOCKED_VALUE);
    }

    /// Lock and log the edge and read its old target; an edge already
    /// logged is left alone and reported as `Err`.
    pub fn log_edge_and_get_old_target(
        &self,
        space: &mut ImmixSpace,
        mem: &HeapMemory,
        edge: Address,
    ) -> (r: Result<ObjectReference, ()>)
        requires
            old(space).wf(),
            old(space).in_space_pos(edge.spec_usize()),
            old(space).lock_bits.spec_at(edge.spec_usize()) == UNLOCKED_VALUE,
            mem.wf(),
            mem.in_heap(edge.spec_usize()),
        ensures
            final(space).wf(),
            old(space).unlog_bits.spec_at(edge.spec_usize()) == LOGGED_VALUE ==> r == Err::<
                ObjectReference,
                (),
            >(()) && *final(space) == *old(space),
            old(space).unlog_bits.spec_at(edge.spec_usize()) != LOGGED_VALUE ==> {
                &&& r == Ok::<ObjectReference, ()>(r.unwrap())
                &&& r.unwrap().spec_value() == mem.spec_at(edge.spec_usize())
                &&& *final(space) == (ImmixSpace {
                    unlog_bits: final(space).unlog_bits,
                    lock_bits: final(space).lock_bits,
                    ..*old(space)
                })
                &&& final(space).unlog_bits.spec_bytes() == old(space).unlog_bits.spec_bytes().update(
                    old(space).unlog_bits.spec_index_of(edge.spec_usize()),
                    LOGGED_VALUE,
                )
                &&& final(space).lock_bits.spec_at(edge.spec_usize()) == UNLOCKED_VALUE
                &&& final(space).lock_bits.spec_bytes() == old(space).lock_bits.spec_bytes()
            },
    {
        if self.attempt_to_lock_edge_bailout_if_logged(space, edge) {
            let old_target = mem.load_reference(edge);
            self.log_and_unlock_edge(space, edge);
            proof {
                space.lock_bits.lemma_in_bounds(edge.spec_usize());
                assert(final(space).lock_bits.spec_bytes() =~= old(space).lock_bits.spec_bytes());
            }
            Ok(old_target)
        } else {
            Err(())
        }
    }
}

/// The `k`-th word slot above a word-aligned start indexes `k` units
/// past the start's own index.
pub proof fn lemma_slot_index_offset(dst: int, base: int, k: int)
    requires
        base % 8 == 0,
        dst % 8 == 0,
        base <= dst,
        k >= 0,
    ensures
        (dst + k * 8 - base) / 8 == (dst - base) / 8 + k,
        (dst + k * 8) % 8 == 0,
{
    let d = dst - base;
    assert(d % 8 == 0) by {
        vstd::arithmetic::div_mod::lemma_sub_mod_noop(dst, base, 8);
    }
    assert((d + k * 8) / 8 == d / 8 + k) by {
        vstd::arithmetic::div_mod::lemma_hoist_over_denominator(d, k, 8nat);
    }
    assert((dst + k * 8) % 8 == 0) by {
        vstd::arithmetic::div_mod::lemma_mod_multiples_vanish(k, dst, 8);
        vstd::arithmetic::mul::lemma_mul_is_commutative(k, 8);
    }
}

/// The positions of a buffer of edges.
pub open spec fn spec_edge_positions(edges: Seq<Address>) -> Set<int> {
    Set::new(|pos: int| exists|j: int| 0 <= j < edges.len() && edges[j].spec_usize() == pos)
}

/// A barrier whose emitted set grew to cover its old increment buffer
/// still satisfies the logging discipline against the same space.
pub proof fn lemma_inv_after_flush(
    pre: LXRFieldBarrierSemantics,
    post: LXRFieldBarrierSemantics,
    space: ImmixSpace,
)
    requires
        pre.inv(space),
        pre.emitted@.subset_of(post.emitted@),
        spec_edge_positions(pre.incs@).subset_of(post.emitted@),
    ensures
        post.inv(space),
{
    assert forall|pos: int|
        space.unlog_bits.in_range(pos) && space.unlog_bits.spec_at(pos)
            == LOGGED_VALUE implies post.spec_incs_contains(pos) || post.emitted@.contains(
        pos,
    ) by {
        if pre.spec_incs_contains(pos) {
            assert(spec_edge_positions(pre.incs@).contains(pos));
        }
    }
}

impl LXRFieldBarrierSemantics {
    /// Flush the buffers into work packets. With increments pending, an
    /// increment packet goes to the unconstrained bucket and the
    /// decrements become a decrement packet, parked when decrements are
    /// lazy; without increments the decrements stay buffered. While
    /// concurrent marking runs, the decrements are also forwarded as a
    /// snapshot mod-buffer, along with the loaded references; otherwise
    /// the loaded references are dropped.
    pub fn flush(
        &mut self,
        scheduler: &mut GCWorkScheduler,
        concurrent_marking: bool,
        lazy_decrements: bool,
    )
        requires
            old(scheduler).wf(),
        ensures
            final(scheduler).wf(),
            final(self).incs@.len() == 0,
            final(self).refs@.len() == 0,
            old(self).incs@.len() > 0 ==> final(self).decs@.len() == 0,
            old(self).incs@.len() == 0 ==> final(self).decs@ == old(self).decs@,
            old(self).emitted@.subset_of(final(self).emitted@),
            spec_edge_positions(old(self).incs@).subset_of(final(self).emitted@),
            final(scheduler).num_workers == old(scheduler).num_workers,
            final(scheduler).parked_workers == old(scheduler).parked_workers,
            final(scheduler).gc_status == old(scheduler).gc_status,
            final(scheduler).scanned_stacks == old(scheduler).scanned_stacks,
            ({
                let b0 = old(scheduler).buckets@;
                let b1 = final(scheduler).buckets@;
                let satb_decs: int = if concurrent_marking && old(self).decs@.len() > 0 {
                    1
                } else {
                    0
                };
                let satb_refs: int = if concurrent_marking && old(self).refs@.len() > 0 {
                    1
                } else {
                    0
                };
                let has_incs: int = if old(self).incs@.len() > 0 {
                    1
                } else {
                    0
                };
                &&& b1.len() == b0.len()
                &&& b1[3].queue@.len() == b0[3].queue@.len() + satb_decs + satb_refs
                &&& b1[3].queue@.subrange(0, b0[3].queue@.len() as int) == b0[3].queue@
                &&& (satb_decs == 1 ==> (b1[3].queue@[b0[3].queue@.len() as int] matches
                    WorkPacket::ProcessModBuf { objects } && objects@ == old(self).decs@))
                &&& (satb_refs == 1 ==> (b1[3].queue@[b0[3].queue@.len() + satb_decs] matches
                    WorkPacket::ProcessModBuf { objects } && objects@ == old(self).refs@))
                &&& b1[0].queue@.len() == b0[0].queue@.len() + has_incs
                &&& b1[0].queue@.subrange(0, b0[0].queue@.len() as int) == b0[0].queue@
                &&& (has_incs == 1 ==> (b1[0].queue@.last() matches WorkPacket::ProcessIncs {
                    edges,
                    kind,
                } && edges@ == old(self).incs@ && kind == crate::rcwork::EDGE_KIND_MATURE))
                &&& (!lazy_decrements ==> {
                    &&& b1[13].queue@.len() == b0[13].queue@.len() + has_incs
                    &&& b1[13].queue@.subrange(0, b0[13].queue@.len() as int) == b0[13].queue@
                    &&& (has_incs == 1 ==> (b1[13].queue@.last() matches
                        WorkPacket::ProcessDecs { objects } && objects@ == old(self).decs@))
                    &&& final(scheduler).postponed_prioritized@ == old(scheduler).postponed_prioritized@
                })
                &&& (lazy_decrements ==> {
                    &&& b1[13].queue@ == b0[13].queue@
                    &&& final(scheduler).postponed_prioritized@.len() == old(scheduler).postponed_prioritized@.len() + has_incs
                    &&& final(scheduler).postponed_prioritized@.subrange(
                        0,
                        old(scheduler).postponed_prioritized@.len() as int,
                    ) == old(scheduler).postponed_prioritized@
                    &&& (has_incs == 1 ==> (final(scheduler).postponed_prioritized@.last()
                        matches WorkPacket::ProcessDecs { objects } && objects@ == old(self).decs@))
                })
                &&& final(scheduler).postponed@ == old(scheduler).postponed@
                &&& (forall|j: int|
                    0 <= j < b0.len() && j != 3 && j != 0 && j != 13 ==> #[trigger] b1[j] == b0[j])
            }),
    {
        let ghost b_start = scheduler.buckets@;
        if concurrent_marking {
            if !self.decs.is_empty() {
                let nodes = self.decs.clone_buffer();
                scheduler.add(WorkBucketStage::Closure, WorkPacket::ProcessModBuf {
                    objects: nodes,
                });
            }
            if !self.refs.is_empty() {
                let nodes = self.refs.take();
                scheduler.add(WorkBucketStage::Closure, WorkPacket::ProcessModBuf {
                    objects: nodes,
                });
            }
        } else {
            self.refs.clear();
        }
        if !self.incs.is_empty() {
            let incs = self.incs.take();
            proof {
                self.emitted@ = self.emitted@.union(spec_edge_positions(incs@));
            }
            scheduler.add(WorkBucketStage::Unconstrained, WorkPacket::ProcessIncs {
                edges: incs,
                kind: crate::rcwork::EDGE_KIND_MATURE,
            });
            let decs = self.decs.take();
            let w = WorkPacket::ProcessDecs { objects: decs };
            if lazy_decrements {
                scheduler.postpone_prioritized(w);
            } else {
                scheduler.add(WorkBucketStage::RCProcessDecs, w);
            }
        } else {
            if !self.refs.is_empty() {
                self.refs.clear();
            }
        }
        proof {
            assert(final(scheduler).buckets@.len() == old(scheduler).buckets@.len());
            assert forall|j: int|
                0 <= j < old(scheduler).buckets@.len() && j != 3 && j != 0 && j
                    != 13 implies #[trigger] final(scheduler).buckets@[j] == old(scheduler).buckets@[j] by {}
        }
    }
}

impl LXRFieldBarrierSemantics {
    /// The barrier's slow path, entered after the edge was logged by
    /// this thread: record a decrement for the old target and an
    /// increment for the edge, and flush the buffers into packets when
    /// one reaches its capacity. The logging discipline is preserved.
    #[verifier::rlimit(100)]
    #[verifier::spinoff_prover]
    pub fn slow(
        &mut self,
        scheduler: &mut GCWorkScheduler,
        slot: Address,
        old_target: ObjectReference,
        concurrent_marking: bool,
        lazy_decrements: bool,
        Ghost(space_now): Ghost<ImmixSpace>,
    )
        requires
            old(scheduler).wf(),
            space_now.unlog_bits.in_range(slot.spec_usize()),
            space_now.unlog_bits.spec_at(slot.spec_usize()) == LOGGED_VALUE,
            space_now.unlog_bits.wf(),
            forall|pos: int|
                space_now.unlog_bits.in_range(pos) && space_now.unlog_bits.spec_at(pos)
                    == LOGGED_VALUE && pos != slot.spec_usize() ==> old(self).spec_incs_contains(
                    pos,
                ) || old(self).emitted@.contains(pos),
        ensures
            final(scheduler).wf(),
            final(self).inv(space_now),
            ({
                let incs1 = old(self).incs@.push(slot);
                let decs1 = if old_target.spec_value() != 0 {
                    old(self).decs@.push(old_target)
                } else {
                    old(self).decs@
                };
                let flushed = incs1.len() >= BUFFER_CAPACITY || decs1.len() >= BUFFER_CAPACITY;
                &&& (!flushed ==> {
                    &&& final(self).incs@ == incs1
                    &&& final(self).decs@ == decs1
                    &&& final(self).refs@ == old(self).refs@
                    &&& final(self).emitted@ == old(self).emitted@
                    &&& *final(scheduler) == *old(scheduler)
                })
                &&& (flushed ==> {
                    &&& final(self).incs@.len() == 0
                    &&& final(self).decs@.len() == 0
                    &&& final(self).refs@.len() == 0
                    &&& final(scheduler).buckets@[0].queue@.len() == old(scheduler).buckets@[0].queue@.len() + 1
                    &&& (final(scheduler).buckets@[0].queue@.last() matches
                        WorkPacket::ProcessIncs { edges, kind } && edges@ == incs1 && kind
                        == crate::rcwork::EDGE_KIND_MATURE)
                    &&& (!lazy_decrements ==> (final(scheduler).buckets@[13].queue@.last() matches
                        WorkPacket::ProcessDecs { objects } && objects@ == decs1))
                    &&& (lazy_decrements ==> (final(scheduler).postponed_prioritized@.last()
                        matches WorkPacket::ProcessDecs { objects } && objects@ == decs1))
                })
            }),
    {
        if !old_target.is_null() {
            self.decs.push(old_target);
        }
        self.incs.push(slot);
        proof {
            assert forall|pos: int|
                space_now.unlog_bits.in_range(pos) && space_now.unlog_bits.spec_at(pos)
                    == LOGGED_VALUE implies self.spec_incs_contains(pos)
                || self.emitted@.contains(pos) by {
                if pos == slot.spec_usize() {
                    assert(self.incs@[self.incs@.len() - 1].spec_usize() == pos);
                } else {
                    if old(self).spec_incs_contains(pos) {
                        let j = choose|j: int|
                            0 <= j < old(self).incs@.len() && old(self).incs@[j].spec_usize()
                                == pos;
                        assert(self.incs@[j].spec_usize() == pos);
                    }
                }
            }
        }
        let ghost mid: LXRFieldBarrierSemantics = *self;
        if self.incs.is_full() || self.decs.is_full() {
            self.flush(scheduler, concurrent_marking, lazy_decrements);
            proof {
                lemma_inv_after_flush(mid, *self, space_now);
            }
        }
    }

    /// A field write with its barrier: lock and log the edge, record a
    /// decrement for the old target and an increment for the edge, and
    /// store the new target. An edge already logged gets the store
    /// alone. A buffer reaching its capacity is flushed mid-stream into
    /// work packets. The logging discipline is preserved throughout.
    #[verifier::rlimit(100)]
    #[verifier::spinoff_prover]
    pub fn object_reference_write(
        &mut self,
        space: &mut ImmixSpace,
        mem: &mut HeapMemory,
        scheduler: &mut GCWorkScheduler,
        slot: Address,
        target: ObjectReference,
        concurrent_marking: bool,
        lazy_decrements: bool,
    )
        requires
            old(space).wf(),
            old(space).in_space_pos(slot.spec_usize()),
            old(space).lock_bits.spec_at(slot.spec_usize()) == UNLOCKED_VALUE,
            old(mem).wf(),
            old(mem).spec_base() == old(space).spec_base(),
            old(mem).spec_words().len() == old(space).num_blocks * crate::WORDS_IN_BLOCK,
            old(scheduler).wf(),
            old(self).inv(*old(space)),
        ensures
            final(space).wf(),
            final(scheduler).wf(),
            final(self).inv(*final(space)),
            final(mem).wf(),
            final(mem).spec_base() == old(mem).spec_base(),
            final(mem).spec_words() == old(mem).spec_words().update(
                old(mem).spec_index_of(slot.spec_usize()),
                target.spec_value() as usize,
            ),
            final(space).unlog_bits.spec_at(slot.spec_usize()) == LOGGED_VALUE,
            final(space).lock_bits.spec_at(slot.spec_usize()) == UNLOCKED_VALUE,
            final(space).lock_bits.spec_bytes() == old(space).lock_bits.spec_bytes(),
            old(space).unlog_bits.spec_at(slot.spec_usize()) == LOGGED_VALUE ==> {
                &&& *final(space) == *old(space)
                &&& *final(self) == *old(self)
                &&& *final(scheduler) == *old(scheduler)
            },
            old(space).unlog_bits.spec_at(slot.spec_usize()) != LOGGED_VALUE ==> ({
                let old_target = old(mem).spec_at(slot.spec_usize());
                let incs1 = old(self).incs@.push(slot);
                let decs1 = if old_target != 0 {
                    old(self).decs@.push(
                        crate::address::spec_object_reference(old_target as int),
                    )
                } else {
                    old(self).decs@
                };
                let flushed = incs1.len() >= BUFFER_CAPACITY || decs1.len() >= BUFFER_CAPACITY;
                &&& *final(space) == (ImmixSpace {
                    unlog_bits: final(space).unlog_bits,
                    lock_bits: final(space).lock_bits,
                    ..*old(space)
                })
                &&& final(space).unlog_bits.spec_bytes() == old(space).unlog_bits.spec_bytes().update(
                    old(space).unlog_bits.spec_index_of(slot.spec_usize()),
                    LOGGED_VALUE,
                )
                &&& (!flushed ==> {
                    &&& final(self).incs@ == incs1
                    &&& final(self).decs@ == decs1
                    &&& final(self).refs@ == old(self).refs@
                    &&& final(self).emitted@ == old(self).emitted@
                    &&& *final(scheduler) == *old(scheduler)
                })
                &&& (flushed ==> {
                    &&& final(self).incs@.len() == 0
                    &&& final(self).decs@.len() == 0
                    &&& final(self).refs@.len() == 0
                    &&& final(scheduler).buckets@[0].queue@.len() == old(scheduler).buckets@[0].queue@.len() + 1
                    &&& (final(scheduler).buckets@[0].queue@.last() matches
                        WorkPacket::ProcessIncs { edges, kind } && edges@ == incs1 && kind
                        == crate::rcwork::EDGE_KIND_MATURE)
                    &&& (!lazy_decrements ==> (final(scheduler).buckets@[13].queue@.last() matches
                        WorkPacket::ProcessDecs { objects } && objects@ == decs1))
                    &&& (lazy_decrements ==> (final(scheduler).postponed_prioritized@.last()
                        matches WorkPacket::ProcessDecs { objects } && objects@ == decs1))
                })
            }),
    {
        proof {
            space.lemma_word_tables(slot.spec_usize());
            crate::space::lemma_block_bytes_are_words(space.num_blocks as int);
            assert(mem.in_heap(slot.spec_usize()));
        }
        let logged = self.log_edge_and_get_old_target(space, mem, slot);
        match logged {
            Err(()) => {
                mem.store(slot, target.value());
            },
            Ok(old_target) => {
                proof {
                    crate::address::lemma_spec_object_reference(
                        old(mem).spec_at(slot.spec_usize()) as int,
                    );
                    if old_target.spec_value() != 0 {
                        crate::address::lemma_object_reference_injective(
                            old_target,
                            crate::address::spec_object_reference(
                                old(mem).spec_at(slot.spec_usize()) as int,
                            ),
                        );
                    }
                    assert forall|pos: int|
                        space.unlog_bits.in_range(pos) && space.unlog_bits.spec_at(pos)
                            == LOGGED_VALUE && pos != slot.spec_usize() implies self
                        .spec_incs_contains(pos) || self.emitted@.contains(pos) by {
                        space.unlog_bits.lemma_in_bounds(pos);
                        assert(old(space).unlog_bits.spec_at(pos) == LOGGED_VALUE);
                    }
                }
                self.slow(
                    scheduler,
                    slot,
                    old_target,
                    concurrent_marking,
                    lazy_decrements,
                    Ghost(*space),
                );
                mem.store(slot, target.value());
                proof {
                    space.lock_bits.lemma_in_bounds(slot.spec_usize());
                    assert(final(space).lock_bits.spec_bytes() =~= old(
                        space,
                    ).lock_bits.spec_bytes());
                }
            },
        }
    }
}

impl LXRFieldBarrierSemantics {
    /// A bulk copy with its barrier: the single-edge protocol applied
    /// to each destination slot in turn. Afterwards every destination
    /// slot holds its value with its log bit set; a slot already
    /// logged got the store alone, and the logging discipline holds
    /// throughout.
    #[verifier::rlimit(100)]
    #[verifier::spinoff_prover]
    pub fn memory_region_copy(
        &mut self,
        space: &mut ImmixSpace,
        mem: &mut HeapMemory,
        scheduler: &mut GCWorkScheduler,
        dst_start: Address,
        values: &Vec<ObjectReference>,
        concurrent_marking: bool,
        lazy_decrements: bool,
    )
        requires
            old(space).wf(),
            old(mem).wf(),
            old(mem).spec_base() == old(space).spec_base(),
            old(mem).spec_words().len() == old(space).num_blocks * crate::WORDS_IN_BLOCK,
            old(scheduler).wf(),
            old(self).inv(*old(space)),
            dst_start.spec_usize() % 8 == 0,
            old(space).spec_base() <= dst_start.spec_usize(),
            dst_start.spec_usize() + values@.len() * 8 <= old(space).spec_end(),
            forall|k: int|
                0 <= k < values@.len() ==> old(space).lock_bits.spec_at(
                    dst_start.spec_usize() + #[trigger] (k * 8),
                ) == UNLOCKED_VALUE,
        ensures
            final(space).wf(),
            final(scheduler).wf(),
            final(mem).wf(),
            final(self).inv(*final(space)),
            *final(space) == (ImmixSpace {
                unlog_bits: final(space).unlog_bits,
                lock_bits: final(space).lock_bits,
                ..*old(space)
            }),
            final(space).lock_bits.spec_bytes() == old(space).lock_bits.spec_bytes(),
            final(mem).spec_base() == old(mem).spec_base(),
            final(mem).spec_words().len() == old(mem).spec_words().len(),
            ({
                let mi0 = old(mem).spec_index_of(dst_start.spec_usize());
                let ui0 = old(space).unlog_bits.spec_index_of(dst_start.spec_usize());
                &&& (forall|j: int|
                    0 <= j < values@.len() ==> #[trigger] final(mem).spec_words()[mi0 + j]
                        == values@[j].spec_value() as usize)
                &&& (forall|i: int|
                    0 <= i < old(mem).spec_words().len() && !(mi0 <= i < mi0 + values@.len())
                        ==> #[trigger] final(mem).spec_words()[i] == old(mem).spec_words()[i])
                &&& (forall|j: int|
                    0 <= j < values@.len() ==> #[trigger] final(space).unlog_bits.spec_bytes()[ui0 + j] == LOGGED_VALUE)
                &&& (forall|i: int|
                    0 <= i < old(space).unlog_bits.spec_bytes().len() && !(ui0 <= i < ui0
                        + values@.len()) ==> #[trigger] final(space).unlog_bits.spec_bytes()[i]
                        == old(space).unlog_bits.spec_bytes()[i])
            }),
    {
        let ghost mi0 = old(mem).spec_index_of(dst_start.spec_usize());
        let ghost ui0 = old(space).unlog_bits.spec_index_of(dst_start.spec_usize());
        let mut k: usize = 0;
        let n = values.len();
        while k < n
            invariant
                k <= n,
                n == values@.len(),
                space.wf(),
                mem.wf(),
                scheduler.wf(),
                self.inv(*space),
                *space == (ImmixSpace {
                    unlog_bits: space.unlog_bits,
                    lock_bits: space.lock_bits,
                    ..*old(space)
                }),
                space.lock_bits.spec_bytes() == old(space).lock_bits.spec_bytes(),
                space.unlog_bits.spec_bytes().len() == old(space).unlog_bits.spec_bytes().len(),
                mem.spec_base() == old(mem).spec_base(),
                mem.spec_words().len() == old(mem).spec_words().len(),
                old(mem).spec_base() == old(space).spec_base(),
                old(mem).spec_words().len() == old(space).num_blocks * crate::WORDS_IN_BLOCK,
                old(space).wf(),
                dst_start.spec_usize() % 8 == 0,
                old(space).spec_base() <= dst_start.spec_usize(),
                dst_start.spec_usize() + n * 8 <= old(space).spec_end(),
                mi0 == old(mem).spec_index_of(dst_start.spec_usize()),
                ui0 == old(space).unlog_bits.spec_index_of(dst_start.spec_usize()),
                forall|j: int|
                    0 <= j < n ==> old(space).lock_bits.spec_at(
                        dst_start.spec_usize() + #[trigger] (j * 8),
                    ) == UNLOCKED_VALUE,
                forall|j: int|
                    0 <= j < k ==> #[trigger] mem.spec_words()[mi0 + j] == values@[j].spec_value()
                        as usize,
                forall|i: int|
                    0 <= i < old(mem).spec_words().len() && !(mi0 <= i < mi0 + k)
                        ==> #[trigger] mem.spec_words()[i] == old(mem).spec_words()[i],
                forall|j: int|
                    0 <= j < k ==> #[trigger] space.unlog_bits.spec_bytes()[ui0 + j]
                        == LOGGED_VALUE,
                forall|i: int|
                    0 <= i < old(space).unlog_bits.spec_bytes().len() && !(ui0 <= i < ui0 + k)
                        ==> #[trigger] space.unlog_bits.spec_bytes()[i] == old(space).unlog_bits.spec_bytes()[i],
            decreases n - k,
        {
            proof {
                vstd::arithmetic::mul::lemma_mul_strict_inequality(k as int, n as int, 8);
                vstd::arithmetic::mul::lemma_mul_is_commutative(k as int, 8);
                vstd::arithmetic::div_mod::lemma_mod_multiples_vanish(
                    k as int,
                    dst_start.spec_usize(),
                    8,
                );
            }
            let slot = dst_start.add(k * 8);
            proof {
                space.lemma_word_tables(slot.spec_usize());
                lemma_slot_index_offset(
                    dst_start.spec_usize(),
                    old(space).spec_base(),
                    k as int,
                );
                assert(space.unlog_bits.spec_index_of(slot.spec_usize()) == ui0 + k);
                assert(mem.spec_index_of(slot.spec_usize()) == mi0 + k);
                assert(space.lock_bits.spec_at(slot.spec_usize()) == UNLOCKED_VALUE) by {
                    assert(old(space).lock_bits.spec_at(dst_start.spec_usize() + (k as int) * 8)
                        == UNLOCKED_VALUE);
                }
                space.unlog_bits.lemma_in_bounds(slot.spec_usize());
                mem.lemma_in_bounds(slot.spec_usize());
            }
            let ghost pre_space: ImmixSpace = *space;
            let ghost pre_mem: HeapMemory = *mem;
            self.object_reference_write(
                space,
                mem,
                scheduler,
                slot,
                values[k],
                concurrent_marking,
                lazy_decrements,
            );
            proof {
                assert(space.unlog_bits.spec_at(slot.spec_usize()) == LOGGED_VALUE);
                assert(space.unlog_bits.spec_bytes()[ui0 + k] == LOGGED_VALUE);
                assert forall|j: int|
                    0 <= j < k + 1 implies #[trigger] mem.spec_words()[mi0 + j]
                    == values@[j].spec_value() as usize by {
                    if j < k {
                        assert(pre_mem.spec_words()[mi0 + j] == values@[j].spec_value() as usize);
                    }
                }
            }
            k = k + 1;
        }
    }

    /// Record a reference loaded while concurrent marking runs: it
    /// joins the snapshot buffer, flushed at its capacity.
    pub fn load_reference(
        &mut self,
        scheduler: &mut GCWorkScheduler,
        o: ObjectReference,
        concurrent_marking: bool,
        lazy_decrements: bool,
    )
        requires
            old(scheduler).wf(),
        ensures
            final(scheduler).wf(),
            old(self).refs@.len() + 1 < BUFFER_CAPACITY ==> {
                &&& final(self).refs@ == old(self).refs@.push(o)
                &&& final(self).incs@ == old(self).incs@
                &&& final(self).decs@ == old(self).decs@
                &&& *final(scheduler) == *old(scheduler)
            },
            old(self).refs@.len() + 1 >= BUFFER_CAPACITY ==> final(self).refs@.len() == 0,
    {
        self.refs.push(o);
        if self.refs.is_full() {
            self.flush(scheduler, concurrent_marking, lazy_decrements);
        }
    }
}

/// The object-remembering barrier: the simpler variant that remembers
/// written-to objects rather than fields. On a write it tries to log
/// the source object; a newly logged object joins the mod-buffer,
/// which is flushed as a re-log-and-scan packet at its capacity.
pub struct ObjectRememberingBarrier {
    /// The remembered objects not yet handed to a packet.
    pub modbuf: VectorQueue<ObjectReference>,
}

impl ObjectRememberingBarrier {
    /// A fresh barrier with an empty mod-buffer.
    pub fn new() -> (r: ObjectRememberingBarrier)
        ensures
            r.modbuf@.len() == 0,
    {
        ObjectRememberingBarrier { modbuf: VectorQueue::new() }
    }

    /// Try to log an object: returns whether this call logged it.
    pub fn log_object(&self, space: &mut ImmixSpace, object: ObjectReference) -> (r: bool)
        requires
            old(space).wf(),
            old(space).in_space(object),
        ensures
            final(space).wf(),
            r == (old(space).unlog_bits.spec_at(object.spec_value()) != LOGGED_VALUE),
            *final(space) == (ImmixSpace { unlog_bits: final(space).unlog_bits, ..*old(space) }),
            final(space).unlog_bits.spec_bytes() == old(space).unlog_bits.spec_bytes().update(
                old(space).unlog_bits.spec_index_of(object.spec_value()),
                LOGGED_VALUE,
            ),
    {
        proof {
            space.lemma_word_tables(object.spec_value());
            space.unlog_bits.lemma_in_bounds(object.spec_value());
        }
        let old_value = space.unlog_bits.load(object.to_address());
        if old_value == LOGGED_VALUE {
            proof {
                assert(final(space).unlog_bits.spec_bytes() =~= old(
                    space,
                ).unlog_bits.spec_bytes().update(
                    old(space).unlog_bits.spec_index_of(object.spec_value()),
                    LOGGED_VALUE,
                ));
            }
            return false;
        }
        space.unlog_bits.store(object.to_address(), LOGGED_VALUE);
        true
    }

    /// Remember a written-to object: log it, and buffer it when this
    /// call was the one that logged it; a buffer that reaches its
    /// capacity is flushed as a re-log-and-scan packet.
    pub fn enqueue_node(
        &mut self,
        space: &mut ImmixSpace,
        scheduler: &mut GCWorkScheduler,
        object: ObjectReference,
    )
        requires
            old(space).wf(),
            old(space).in_space(object),
            old(scheduler).wf(),
        ensures
            final(space).wf(),
            final(scheduler).wf(),
            final(space).unlog_bits.spec_at(object.spec_value()) == LOGGED_VALUE,
            *final(space) == (ImmixSpace { unlog_bits: final(space).unlog_bits, ..*old(space) }),
            final(space).unlog_bits.spec_bytes() == old(space).unlog_bits.spec_bytes().update(
                old(space).unlog_bits.spec_index_of(object.spec_value()),
                LOGGED_VALUE,
            ),
            old(space).unlog_bits.spec_at(object.spec_value()) == LOGGED_VALUE ==> *final(self)
                == *old(self) && *final(scheduler) == *old(scheduler),
            old(space).unlog_bits.spec_at(object.spec_value()) != LOGGED_VALUE && old(self).modbuf@.len() + 1 < BUFFER_CAPACITY ==> final(self).modbuf@ == old(self).modbuf@.push(object) && *final(scheduler) == *old(scheduler),
            old(space).unlog_bits.spec_at(object.spec_value()) != LOGGED_VALUE && old(self).modbuf@.len() + 1 >= BUFFER_CAPACITY ==> {
                &&& final(self).modbuf@.len() == 0
                &&& final(scheduler).buckets@[3].queue@.len() == old(
                    scheduler,
                ).buckets@[3].queue@.len() + 1
                &&& (final(scheduler).buckets@[3].queue@.last() matches
                    WorkPacket::ProcessModBuf { objects } && objects@ == old(self).modbuf@.push(
                    object,
                ))
            },
    {
        proof {
            space.lemma_word_tables(object.spec_value());
            space.unlog_bits.lemma_in_bounds(object.spec_value());
        }
        if self.log_object(space, object) {
            self.modbuf.push(object);
            if self.modbuf.is_full() {
                self.flush(scheduler);
            }
        }
    }

    /// Hand the mod-buffer to the closure stage as a re-log-and-scan
    /// packet; nothing is emitted when it is empty.
    pub fn flush(&mut self, scheduler: &mut GCWorkScheduler)
        requires
            old(scheduler).wf(),
        ensures
            final(scheduler).wf(),
            final(self).modbuf@.len() == 0,
            final(scheduler).num_workers == old(scheduler).num_workers,
            final(scheduler).parked_workers == old(scheduler).parked_workers,
            final(scheduler).gc_status == old(scheduler).gc_status,
            final(scheduler).postponed@ == old(scheduler).postponed@,
            final(scheduler).scanned_stacks == old(scheduler).scanned_stacks,
            old(self).modbuf@.len() == 0 ==> *final(scheduler) == *old(scheduler),
            old(self).modbuf@.len() > 0 ==> {
                &&& final(scheduler).buckets@[3].queue@.len() == old(scheduler).buckets@[3].queue@.len() + 1
                &&& (final(scheduler).buckets@[3].queue@.last() matches WorkPacket::ProcessModBuf {
                    objects,
                } && objects@ == old(self).modbuf@)
            },
    {
        if !self.modbuf.is_empty() {
            let modbuf = self.modbuf.take();
            scheduler.add(WorkBucketStage::Closure, WorkPacket::ProcessModBuf {
                objects: modbuf,
            });
        }
    }
}

/// The counts after the clone barrier raised each of a sequence of
/// field targets in turn: null or out-of-space targets are skipped,
/// the rest take one saturating increment each.
pub open spec fn spec_counts_after_clone_incs(
    space0: ImmixSpace,
    counts: Seq<u8>,
    mem: HeapMemory,
    edges: Seq<int>,
) -> Seq<u8>
    decreases edges.len(),
{
    if edges.len() == 0 {
        counts
    } else {
        let prev = spec_counts_after_clone_incs(space0, counts, mem, edges.drop_last());
        let target = mem.spec_at(edges.last());
        if target != 0 && space0.in_space_pos(target as int) {
            let i = space0.rc.spec_index_of_pos(target as int);
            prev.update(i, crate::rc::rc_inc_value(prev[i]))
        } else {
            prev
        }
    }
}

/// Appending one edge applies its increment to the accumulated counts.
pub proof fn lemma_clone_incs_snoc(
    space0: ImmixSpace,
    counts: Seq<u8>,
    mem: HeapMemory,
    edges: Seq<int>,
    e: int,
)
    ensures
        spec_counts_after_clone_incs(space0, counts, mem, edges.push(e)) == ({
            let prev = spec_counts_after_clone_incs(space0, counts, mem, edges);
            let target = mem.spec_at(e);
            if target != 0 && space0.in_space_pos(target as int) {
                let i = space0.rc.spec_index_of_pos(target as int);
                prev.update(i, crate::rc::rc_inc_value(prev[i]))
            } else {
                prev
            }
        }),
{
    assert(edges.push(e).drop_last() =~= edges);
    assert(edges.push(e).last() == e);
}

impl LXRFieldBarrierSemantics {
    /// The clone barrier: a freshly cloned object's references each
    /// gain a reference, so every non-null in-space target of the
    /// copy's fields takes one saturating increment, in field order.
    #[verifier::rlimit(100)]
    #[verifier::spinoff_prover]
    pub fn object_clone_barrier(
        &mut self,
        space: &mut ImmixSpace,
        mem: &HeapMemory,
        dst: &crate::rcwork::ObjectLayout,
    )
        requires
            old(space).wf(),
            dst.wf(*old(space)),
            mem.wf(),
            mem.spec_base() == old(space).spec_base(),
            mem.spec_words().len() == old(space).num_blocks * crate::WORDS_IN_BLOCK,
        ensures
            final(space).wf(),
            *final(space) == (ImmixSpace { rc: final(space).rc, ..*old(space) }),
            final(space).rc.spec_counts() == spec_counts_after_clone_incs(
                *old(space),
                old(space).rc.spec_counts(),
                *mem,
                dst@,
            ),
            *final(self) == *old(self),
    {
        let ghost space0: ImmixSpace = *old(space);
        let ghost edges_all = dst@;
        let mut j: usize = 0;
        while j < dst.field_offsets.len()
            invariant
                j <= dst.field_offsets@.len(),
                space.wf(),
                *space == (ImmixSpace { rc: space.rc, ..space0 }),
                space0.wf(),
                space0 == *old(space),
                dst.wf(space0),
                mem.wf(),
                mem.spec_base() == space0.spec_base(),
                mem.spec_words().len() == space0.num_blocks * crate::WORDS_IN_BLOCK,
                space.rc.spec_counts() == spec_counts_after_clone_incs(
                    space0,
                    space0.rc.spec_counts(),
                    *mem,
                    edges_all.subrange(0, j as int),
                ),
                space.rc.spec_base() == space0.rc.spec_base(),
                space.rc.spec_counts().len() == space0.rc.spec_counts().len(),
                edges_all == dst@,
            decreases dst.field_offsets@.len() - j,
        {
            proof {
                crate::rcwork::lemma_layout_edge_in_space(space0, *dst, j as int);
                space.lemma_word_tables(dst.spec_field_edge(j as int));
                crate::space::lemma_block_bytes_are_words(space.num_blocks as int);
            }
            let off = dst.field_offsets[j];
            let edge = dst.start.to_address().add(off * 8);
            let target = mem.load_reference(edge);
            let mut bumped = false;
            if !target.is_null() {
                let taddr = target.value();
                if taddr % 8 == 0 && taddr >= space.base.as_usize() {
                    if taddr - space.base.as_usize() < space.num_blocks * crate::BYTES_IN_BLOCK {
                        proof {
                            space.lemma_word_tables(target.spec_value());
                        }
                        let _ = space.rc.inc(target);
                        bumped = true;
                    }
                }
            }
            proof {
                assert(edge.spec_usize() == edges_all[j as int]);
                lemma_clone_incs_snoc(
                    space0,
                    space0.rc.spec_counts(),
                    *mem,
                    edges_all.subrange(0, j as int),
                    edges_all[j as int],
                );
                assert(edges_all.subrange(0, j + 1) =~= edges_all.subrange(0, j as int).push(
                    edges_all[j as int],
                ));
                let t = mem.spec_at(edges_all[j as int]);
                assert(bumped == (t != 0 && space0.in_space_pos(t as int)));
                assert(space.rc.spec_counts() =~= spec_counts_after_clone_incs(
                    space0,
                    space0.rc.spec_counts(),
                    *mem,
                    edges_all.subrange(0, j + 1),
                ));
            }
            j = j + 1;
        }
        proof {
            assert(edges_all.subrange(0, edges_all.len() as int) =~= edges_all);
        }
    }
}

/// How a flood of slow-path writes leaves the increment machinery:
/// how many packets have been emitted and how many edges sit buffered,
/// following the write contract's discipline — each write buffers its
/// edge, and a buffer that reaches the capacity is flushed whole.
pub open spec fn spec_flood_state(writes: nat) -> (int, int)
    decreases writes,
{
    if writes == 0 {
        (0, 0)
    } else {
        let (packets, buffered) = spec_flood_state((writes - 1) as nat);
        if buffered + 1 >= BUFFER_CAPACITY {
            (packets + 1, 0)
        } else {
            (packets, buffered + 1)
        }
    }
}

/// Barrier-buffer accounting: after any number of slow-path writes to
/// distinct unlogged edges, the edges across the emitted packets and
/// the buffer together count every write exactly once — each packet
/// carries the full capacity and the buffer holds the remainder. In
/// particular, twice the capacity of writes emits one packet
/// mid-stream and leaves one capacity buffered for the final flush.
pub proof fn lemma_flood_accounting(writes: nat)
    ensures
        ({
            let (packets, buffered) = spec_flood_state(writes);
            &&& packets * BUFFER_CAPACITY + buffered == writes
            &&& 0 <= buffered < BUFFER_CAPACITY
            &&& packets >= 0
        }),
    decreases writes,
{
    if writes > 0 {
        lemma_flood_accounting((writes - 1) as nat);
        let (packets, buffered) = spec_flood_state((writes - 1) as nat);
        if buffered + 1 >= BUFFER_CAPACITY {
            assert((packets + 1) * BUFFER_CAPACITY == packets * BUFFER_CAPACITY
                + BUFFER_CAPACITY) by {
                vstd::arithmetic::mul::lemma_mul_is_distributive_add_other_way(
                    BUFFER_CAPACITY as int,
                    packets,
                    1,
                );
            }
        }
    }
}

/// Which flavor the field-logging barrier runs in.
#[derive(Copy, Clone, Debug, PartialEq, Eq, Structural)]
pub enum FLBKind {
    /// Snapshot-at-the-beginning: old targets join the marking stream.
    SATB,
    /// Incremental update.
    IU,
}

/// A barrier that can hand its buffers to the scheduler.
pub trait Barrier {
    /// Flush whatever the barrier has buffered into work packets. A
    /// flush only feeds the scheduler: it never touches the worker
    /// pool, the collection status, or the plainly postponed work.
    fn flush_to_scheduler(&mut self, scheduler: &mut GCWorkScheduler)
        requires
            old(scheduler).wf(),
        ensures
            final(scheduler).wf(),
            final(scheduler).num_workers == old(scheduler).num_workers,
            final(scheduler).parked_workers == old(scheduler).parked_workers,
            final(scheduler).gc_status == old(scheduler).gc_status,
            final(scheduler).postponed@ == old(scheduler).postponed@,
            final(scheduler).scanned_stacks == old(scheduler).scanned_stacks,
    ;
}

/// The barrier of plans that need none: it buffers nothing.
pub struct NoBarrier;

impl Barrier for NoBarrier {
    fn flush_to_scheduler(&mut self, _scheduler: &mut GCWorkScheduler) {
    }
}

/// The field-logging barrier as a plan installs it: the logging
/// protocol together with its flavor and the plan's flags.
pub struct FieldLoggingBarrier {
    /// The edge-logging protocol and its buffers.
    pub semantics: LXRFieldBarrierSemantics,
    /// Which flavor this barrier runs in.
    pub kind: FLBKind,
    /// Whether concurrent marking runs alongside the mutators.
    pub concurrent_marking: bool,
    /// Whether decrements are processed lazily, after the pause.
    pub lazy_decrements: bool,
}

impl FieldLoggingBarrier {
    /// A fresh barrier of the given flavor.
    pub fn new(kind: FLBKind, concurrent_marking: bool, lazy_decrements: bool) -> (r:
        FieldLoggingBarrier)
        ensures
            r.kind == kind,
            r.concurrent_marking == concurrent_marking,
            r.lazy_decrements == lazy_decrements,
            r.semantics.incs@.len() == 0,
            r.semantics.decs@.len() == 0,
            r.semantics.refs@.len() == 0,
            r.semantics.emitted@ == Set::<int>::empty(),
    {
        FieldLoggingBarrier {
            semantics: LXRFieldBarrierSemantics::new(),
            kind,
            concurrent_marking,
            lazy_decrements,
        }
    }

    /// A field write through this barrier.
    pub fn write_barrier(
        &mut self,
        space: &mut ImmixSpace,
        mem: &mut HeapMemory,
        scheduler: &mut GCWorkScheduler,
        slot: Address,
        target: ObjectReference,
    )
        requires
            old(space).wf(),
            old(space).in_space_pos(slot.spec_usize()),
            old(space).lock_bits.spec_at(slot.spec_usize()) == UNLOCKED_VALUE,
            old(mem).wf(),
            old(mem).spec_base() == old(space).spec_base(),
            old(mem).spec_words().len() == old(space).num_blocks * crate::WORDS_IN_BLOCK,
            old(scheduler).wf(),
            old(self).semantics.inv(*old(space)),
        ensures
            final(space).wf(),
            final(scheduler).wf(),
            final(mem).wf(),
            final(self).semantics.inv(*final(space)),
            final(self).kind == old(self).kind,
            final(mem).spec_words() == old(mem).spec_words().update(
                old(mem).spec_index_of(slot.spec_usize()),
                target.spec_value() as usize,
            ),
            final(space).unlog_bits.spec_at(slot.spec_usize()) == LOGGED_VALUE,
    {
        let concurrent_marking = self.concurrent_marking;
        let lazy_decrements = self.lazy_decrements;
        self.semantics.object_reference_write(
            space,
            mem,
            scheduler,
            slot,
            target,
            concurrent_marking,
            lazy_decrements,
        );
    }
}

impl FieldLoggingBarrier {
    /// Dispatch one reported write to its protocol: a field store runs
    /// the single-edge slow path, an array copy runs it per destination
    /// slot, and a clone raises each of the copy's targets.
    pub fn write_target(
        &mut self,
        space: &mut ImmixSpace,
        mem: &mut HeapMemory,
        scheduler: &mut GCWorkScheduler,
        target: WriteTarget,
    )
        requires
            old(space).wf(),
            old(mem).wf(),
            old(mem).spec_base() == old(space).spec_base(),
            old(mem).spec_words().len() == old(space).num_blocks * crate::WORDS_IN_BLOCK,
            old(scheduler).wf(),
            old(self).semantics.inv(*old(space)),
            (target matches WriteTarget::Field { src, slot, val } ==> old(space).in_space_pos(
                slot.spec_usize(),
            ) && old(space).lock_bits.spec_at(slot.spec_usize()) == UNLOCKED_VALUE),
            (target matches WriteTarget::ArrayCopy { dst_start, values } ==> {
                &&& dst_start.spec_usize() % 8 == 0
                &&& old(space).spec_base() <= dst_start.spec_usize()
                &&& dst_start.spec_usize() + values@.len() * 8 <= old(space).spec_end()
                &&& (forall|k: int|
                    0 <= k < values@.len() ==> old(space).lock_bits.spec_at(
                        dst_start.spec_usize() + #[trigger] (k * 8),
                    ) == UNLOCKED_VALUE)
            }),
            (target matches WriteTarget::Clone { dst } ==> dst.wf(*old(space))),
        ensures
            final(space).wf(),
            final(scheduler).wf(),
            final(mem).wf(),
            final(self).semantics.inv(*final(space)),
            (target matches WriteTarget::Field { src, slot, val } ==> final(mem).spec_words()
                == old(mem).spec_words().update(
                old(mem).spec_index_of(slot.spec_usize()),
                val.spec_value() as usize,
            ) && final(space).unlog_bits.spec_at(slot.spec_usize()) == LOGGED_VALUE),
            (target matches WriteTarget::ArrayCopy { dst_start, values } ==> (forall|j: int|
                0 <= j < values@.len() ==> #[trigger] final(mem).spec_words()[old(
                    mem,
                ).spec_index_of(dst_start.spec_usize()) + j] == values@[j].spec_value()
                    as usize)),
            (target matches WriteTarget::Clone { dst } ==> final(space).rc.spec_counts()
                == spec_counts_after_clone_incs(
                *old(space),
                old(space).rc.spec_counts(),
                *old(mem),
                dst@,
            ) && *final(mem) == *old(mem)),
    {
        let concurrent_marking = self.concurrent_marking;
        let lazy_decrements = self.lazy_decrements;
        match target {
            WriteTarget::Field { src: _, slot, val } => {
                self.semantics.object_reference_write(
                    space,
                    mem,
                    scheduler,
                    slot,
                    val,
                    concurrent_marking,
                    lazy_decrements,
                );
            },
            WriteTarget::ArrayCopy { dst_start, values } => {
                self.semantics.memory_region_copy(
                    space,
                    mem,
                    scheduler,
                    dst_start,
                    &values,
                    concurrent_marking,
                    lazy_decrements,
                );
            },
            WriteTarget::Clone { dst } => {
                self.semantics.object_clone_barrier(space, mem, &dst);
            },
        }
    }
}

impl Barrier for FieldLoggingBarrier {
    fn flush_to_scheduler(&mut self, scheduler: &mut GCWorkScheduler) {
        let concurrent_marking = self.concurrent_marking;
        let lazy_decrements = self.lazy_decrements;
        self.semantics.flush(scheduler, concurrent_marking, lazy_decrements);
    }
}

impl Barrier for ObjectRememberingBarrier {
    fn flush_to_scheduler(&mut self, scheduler: &mut GCWorkScheduler) {
        self.flush(scheduler);
    }
}

/// The generational field-logging barrier: edges and written-to
/// objects are remembered for the next nursery collection, without
/// reference-count maintenance.
pub struct GenFieldLoggingBarrier {
    /// The remembered edges.
    pub edges: VectorQueue<Address>,
    /// The remembered objects.
    pub nodes: VectorQueue<ObjectReference>,
}

impl GenFieldLoggingBarrier {
    /// A fresh barrier with empty buffers.
    pub fn new() -> (r: GenFieldLoggingBarrier)
        ensures
            r.edges@.len() == 0,
            r.nodes@.len() == 0,
    {
        GenFieldLoggingBarrier { edges: VectorQueue::new(), nodes: VectorQueue::new() }
    }

    /// Try to log an edge: returns whether this call logged it.
    pub fn log_edge(&self, space: &mut ImmixSpace, edge: Address) -> (r: bool)
        requires
            old(space).wf(),
            old(space).in_space_pos(edge.spec_usize()),
        ensures
            final(space).wf(),
            r == (old(space).unlog_bits.spec_at(edge.spec_usize()) != LOGGED_VALUE),
            *final(space) == (ImmixSpace { unlog_bits: final(space).unlog_bits, ..*old(space) }),
            final(space).unlog_bits.spec_bytes() == old(space).unlog_bits.spec_bytes().update(
                old(space).unlog_bits.spec_index_of(edge.spec_usize()),
                LOGGED_VALUE,
            ),
    {
        proof {
            space.lemma_word_tables(edge.spec_usize());
            space.unlog_bits.lemma_in_bounds(edge.spec_usize());
        }
        let old_value = space.unlog_bits.load(edge);
        if old_value == LOGGED_VALUE {
            proof {
                assert(final(space).unlog_bits.spec_bytes() =~= old(
                    space,
                ).unlog_bits.spec_bytes().update(
                    old(space).unlog_bits.spec_index_of(edge.spec_usize()),
                    LOGGED_VALUE,
                ));
            }
            return false;
        }
        space.unlog_bits.store(edge, LOGGED_VALUE);
        true
    }

    /// Remember one edge: log it, and buffer it when this call logged
    /// it; a buffer that reaches its capacity is flushed as an edge
    /// mod-buffer packet.
    pub fn enqueue_edge(
        &mut self,
        space: &mut ImmixSpace,
        scheduler: &mut GCWorkScheduler,
        edge: Address,
    )
        requires
            old(space).wf(),
            old(space).in_space_pos(edge.spec_usize()),
            old(scheduler).wf(),
        ensures
            final(space).wf(),
            final(scheduler).wf(),
            final(space).unlog_bits.spec_at(edge.spec_usize()) == LOGGED_VALUE,
            *final(space) == (ImmixSpace { unlog_bits: final(space).unlog_bits, ..*old(space) }),
            old(space).unlog_bits.spec_at(edge.spec_usize()) == LOGGED_VALUE ==> *final(self)
                == *old(self) && *final(scheduler) == *old(scheduler),
            old(space).unlog_bits.spec_at(edge.spec_usize()) != LOGGED_VALUE && old(self).edges@.len() + 1 < BUFFER_CAPACITY ==> final(self).edges@ == old(self).edges@.push(edge) && final(self).nodes@ == old(self).nodes@ && *final(scheduler)
                == *old(scheduler),
            old(space).unlog_bits.spec_at(edge.spec_usize()) != LOGGED_VALUE && old(self).edges@.len() + 1 >= BUFFER_CAPACITY ==> final(self).edges@.len() == 0 && final(self).nodes@.len() == 0,
    {
        proof {
            space.lemma_word_tables(edge.spec_usize());
            space.unlog_bits.lemma_in_bounds(edge.spec_usize());
        }
        if self.log_edge(space, edge) {
            self.edges.push(edge);
            if self.edges.is_full() {
                self.flush(scheduler);
            }
        }
    }

    /// Remember one written-to object, through its header word.
    pub fn enqueue_node(
        &mut self,
        space: &mut ImmixSpace,
        scheduler: &mut GCWorkScheduler,
        obj: ObjectReference,
    )
        requires
            old(space).wf(),
            old(space).in_space(obj),
            old(scheduler).wf(),
        ensures
            final(space).wf(),
            final(scheduler).wf(),
            final(space).unlog_bits.spec_at(obj.spec_value()) == LOGGED_VALUE,
            *final(space) == (ImmixSpace { unlog_bits: final(space).unlog_bits, ..*old(space) }),
            old(space).unlog_bits.spec_at(obj.spec_value()) == LOGGED_VALUE ==> *final(self)
                == *old(self) && *final(scheduler) == *old(scheduler),
            old(space).unlog_bits.spec_at(obj.spec_value()) != LOGGED_VALUE && old(self).nodes@.len() + 1 < BUFFER_CAPACITY ==> final(self).nodes@ == old(self).nodes@.push(obj) && final(self).edges@ == old(self).edges@ && *final(scheduler)
                == *old(scheduler),
            old(space).unlog_bits.spec_at(obj.spec_value()) != LOGGED_VALUE && old(self).nodes@.len() + 1 >= BUFFER_CAPACITY ==> final(self).nodes@.len() == 0 && final(self).edges@.len() == 0,
    {
        proof {
            space.lemma_word_tables(obj.spec_value());
            space.unlog_bits.lemma_in_bounds(obj.spec_value());
        }
        if self.log_edge(space, obj.to_address()) {
            self.nodes.push(obj);
            if self.nodes.is_full() {
                self.flush(scheduler);
            }
        }
    }

    /// Hand both buffers to the closure stage, objects before edges;
    /// empty buffers emit nothing.
    pub fn flush(&mut self, scheduler: &mut GCWorkScheduler)
        requires
            old(scheduler).wf(),
        ensures
            final(scheduler).wf(),
            final(self).edges@.len() == 0,
            final(self).nodes@.len() == 0,
            final(scheduler).num_workers == old(scheduler).num_workers,
            final(scheduler).parked_workers == old(scheduler).parked_workers,
            final(scheduler).gc_status == old(scheduler).gc_status,
            final(scheduler).postponed@ == old(scheduler).postponed@,
            final(scheduler).scanned_stacks == old(scheduler).scanned_stacks,
            ({
                let with_nodes: int = if old(self).nodes@.len() > 0 {
                    1
                } else {
                    0
                };
                let with_edges: int = if old(self).edges@.len() > 0 {
                    1
                } else {
                    0
                };
                &&& final(scheduler).buckets@[3].queue@.len() == old(
                    scheduler,
                ).buckets@[3].queue@.len() + with_nodes + with_edges
                &&& (old(self).nodes@.len() > 0 ==> (final(scheduler).buckets@[3].queue@[old(
                    scheduler,
                ).buckets@[3].queue@.len() as int] matches WorkPacket::ProcessModBuf { objects }
                    && objects@ == old(self).nodes@))
                &&& (old(self).edges@.len() > 0 ==> (final(scheduler).buckets@[3].queue@.last()
                    matches WorkPacket::EdgesProcessModBuf { edges } && edges@ == old(self).edges@))
            }),
    {
        if !self.nodes.is_empty() {
            let nodes = self.nodes.take();
            scheduler.add(WorkBucketStage::Closure, WorkPacket::ProcessModBuf {
                objects: nodes,
            });
        }
        if !self.edges.is_empty() {
            let edges = self.edges.take();
            scheduler.add(WorkBucketStage::Closure, WorkPacket::EdgesProcessModBuf { edges });
        }
    }
}

impl Barrier for GenFieldLoggingBarrier {
    fn flush_to_scheduler(&mut self, scheduler: &mut GCWorkScheduler) {
        self.flush(scheduler);
    }
}

} // verus!
