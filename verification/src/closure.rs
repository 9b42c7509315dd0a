//! Transitive-closure visitors: buffering the edges of scanned objects
//! into closure-stage packets, and enumerating an object's edges.

use vstd::prelude::*;

verus! {

use crate::address::Address;
use crate::address::ObjectReference;
use crate::queue::BUFFER_CAPACITY;
use crate::queue::VectorQueue;
use crate::rcwork::ObjectLayout;
use crate::scheduler::GCWorkScheduler;
use crate::scheduler::WorkBucketStage;
use crate::scheduler::WorkPacket;

broadcast use crate::address::lemma_object_reference_bounds;

/// The mechanism for walking an object graph: tracing hands every
/// visited node and edge to one of these.
pub trait TransitiveClosure {
    /// The nodes taken so far.
    spec fn spec_nodes(&self) -> Seq<ObjectReference>;

    /// Take a node that entered the closure.
    fn process_node(&mut self, object: ObjectReference)
        ensures
            final(self).spec_nodes() == old(self).spec_nodes().push(object),
    ;
}

impl TransitiveClosure for VectorQueue<ObjectReference> {
    open spec fn spec_nodes(&self) -> Seq<ObjectReference> {
        self@
    }

    fn process_node(&mut self, object: ObjectReference) {
        self.push(object);
    }
}

/// A visitor that collects the edges of scanned objects and hands them
/// to the closure stage in packet-sized batches.
pub struct ObjectsClosure {
    /// The edges not yet handed to a packet.
    pub buffer: VectorQueue<Address>,
}

impl ObjectsClosure {
    /// A fresh visitor with an empty buffer.
    pub fn new() -> (r: ObjectsClosure)
        ensures
            r.buffer@.len() == 0,
    {
        ObjectsClosure { buffer: VectorQueue::new() }
    }

    /// Take one edge; a buffer at its capacity is handed off first.
    pub fn process_edge(&mut self, scheduler: &mut GCWorkScheduler, slot: Address)
        requires
            old(scheduler).wf(),
        ensures
            final(scheduler).wf(),
            old(self).buffer@.len() + 1 < BUFFER_CAPACITY ==> final(self).buffer@ == old(
                self,
            ).buffer@.push(slot) && *final(scheduler) == *old(scheduler),
            old(self).buffer@.len() + 1 >= BUFFER_CAPACITY ==> {
                &&& final(self).buffer@.len() == 0
                &&& final(scheduler).buckets@[3].queue@.len() == old(
                    scheduler,
                ).buckets@[3].queue@.len() + 1
                &&& (final(scheduler).buckets@[3].queue@.last() matches WorkPacket::ProcessEdges {
                    edges,
                } && edges@ == old(self).buffer@.push(slot))
            },
    {
        self.buffer.push(slot);
        if self.buffer.is_full() {
            self.flush(scheduler);
        }
    }

    /// Hand the buffered edges to the closure stage; an empty buffer
    /// emits nothing.
    pub fn flush(&mut self, scheduler: &mut GCWorkScheduler)
        requires
            old(scheduler).wf(),
        ensures
            final(scheduler).wf(),
            final(self).buffer@.len() == 0,
            old(self).buffer@.len() == 0 ==> *final(scheduler) == *old(scheduler),
            old(self).buffer@.len() > 0 ==> {
                &&& final(scheduler).buckets@[3].queue@.len() == old(
                    scheduler,
                ).buckets@[3].queue@.len() + 1
                &&& (final(scheduler).buckets@[3].queue@.last() matches WorkPacket::ProcessEdges {
                    edges,
                } && edges@ == old(self).buffer@)
            },
    {
        if !self.buffer.is_empty() {
            let buf = self.buffer.take();
            scheduler.add(WorkBucketStage::Closure, WorkPacket::ProcessEdges { edges: buf });
        }
    }
}

/// The edge enumerator: what the binding's object scan reports, an
/// address for each reference field of an object.
pub struct EdgeIterator;

impl EdgeIterator {
    /// The addresses of an object's reference fields, in field order.
    pub fn iterate(layout: &ObjectLayout) -> (r: Vec<Address>)
        requires
            layout.start.spec_value() + layout.size_words * 8 <= usize::MAX,
            layout.size_words >= 1,
            forall|j: int|
                0 <= j < layout.field_offsets@.len() ==> 1 <= #[trigger] layout.field_offsets@[j]
                    < layout.size_words,
        ensures
            r@.len() == layout.field_offsets@.len(),
            forall|j: int|
                0 <= j < r@.len() ==> (#[trigger] r@[j]).spec_usize() == layout.spec_field_edge(j),
    {
        let mut out: Vec<Address> = Vec::new();
        let mut j: usize = 0;
        let n = layout.field_offsets.len();
        while j < n
            invariant
                j <= n,
                n == layout.field_offsets@.len(),
                out@.len() == j,
                layout.start.spec_value() + layout.size_words * 8 <= usize::MAX,
                layout.size_words >= 1,
                forall|k: int|
                    0 <= k < layout.field_offsets@.len() ==> 1 <= #[trigger] layout.field_offsets@[k]
                        < layout.size_words,
                forall|k: int|
                    0 <= k < j ==> (#[trigger] out@[k]).spec_usize() == layout.spec_field_edge(k),
            decreases n - j,
        {
            proof {
                vstd::arithmetic::mul::lemma_mul_strict_inequality(
                    layout.field_offsets@[j as int] as int,
                    layout.size_words as int,
                    8,
                );
                vstd::arithmetic::mul::lemma_mul_is_commutative(
                    layout.field_offsets@[j as int] as int,
                    8,
                );
            }
            let off = layout.field_offsets[j];
            out.push(layout.start.to_address().add(off * 8));
            j = j + 1;
        }
        out
    }
}

} // verus!
