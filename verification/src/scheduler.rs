//! The work-packet scheduler: stage-ordered buckets of packets, a
//! worker pool, and the pause driver that assembles and drains the
//! work graph of each collection.

use vstd::prelude::*;

verus! {

use crate::address::Address;
use crate::address::ObjectReference;
use crate::plan::GcStatus;
use crate::plan::Pause;

/// The ordered stages of a collection. A bucket opens only when every
/// earlier bucket has been activated and drained.
#[derive(Copy, Clone, Debug, PartialEq, Eq, Structural)]
pub enum WorkBucketStage {
    /// Work that may run at any time.
    Unconstrained,
    /// Global, collector and mutator preparation, and root scanning.
    Prepare,
    /// Work scheduled before the transitive closure.
    PreClosure,
    /// The transitive closure over strong references.
    Closure,
    /// Soft reference processing.
    SoftRefClosure,
    /// Weak reference processing.
    WeakRefClosure,
    /// Finalizable reference processing.
    FinalRefClosure,
    /// Phantom reference processing.
    PhantomRefClosure,
    /// Compute forwarding addresses.
    CalculateForwarding,
    /// A second root scan for compacting plans.
    SecondRoots,
    /// Forward through reference types.
    RefForwarding,
    /// Forward through finalizable objects.
    FinalizableForwarding,
    /// Compaction itself.
    Compact,
    /// Reference-count decrement processing.
    RCProcessDecs,
    /// Release of dead nursery blocks.
    RCReleaseNursery,
    /// Full-heap release after a backup trace.
    RCFullHeapRelease,
    /// Work scheduled after the closure.
    PostClosure,
    /// Weak-reference hooks and mutator flushing.
    RefClosure,
    /// Global, collector and mutator release.
    Release,
    /// The end of the collection.
    Final,
}

/// How many stages there are.
pub const NUM_STAGES: usize = 20;

impl WorkBucketStage {
    /// The position of a stage in the canonical order.
    pub open spec fn spec_order(self) -> int {
        match self {
            WorkBucketStage::Unconstrained => 0,
            WorkBucketStage::Prepare => 1,
            WorkBucketStage::PreClosure => 2,
            WorkBucketStage::Closure => 3,
            WorkBucketStage::SoftRefClosure => 4,
            WorkBucketStage::WeakRefClosure => 5,
            WorkBucketStage::FinalRefClosure => 6,
            WorkBucketStage::PhantomRefClosure => 7,
            WorkBucketStage::CalculateForwarding => 8,
            WorkBucketStage::SecondRoots => 9,
            WorkBucketStage::RefForwarding => 10,
            WorkBucketStage::FinalizableForwarding => 11,
            WorkBucketStage::Compact => 12,
            WorkBucketStage::RCProcessDecs => 13,
            WorkBucketStage::RCReleaseNursery => 14,
            WorkBucketStage::RCFullHeapRelease => 15,
            WorkBucketStage::PostClosure => 16,
            WorkBucketStage::RefClosure => 17,
            WorkBucketStage::Release => 18,
            WorkBucketStage::Final => 19,
        }
    }

    /// The position of a stage in the canonical order.
    pub fn order(self) -> (r: usize)
        ensures
            r == self.spec_order(),
            r < NUM_STAGES,
    {
        match self {
            WorkBucketStage::Unconstrained => 0,
            WorkBucketStage::Prepare => 1,
            WorkBucketStage::PreClosure => 2,
            WorkBucketStage::Closure => 3,
            WorkBucketStage::SoftRefClosure => 4,
            WorkBucketStage::WeakRefClosure => 5,
            WorkBucketStage::FinalRefClosure => 6,
            WorkBucketStage::PhantomRefClosure => 7,
            WorkBucketStage::CalculateForwarding => 8,
            WorkBucketStage::SecondRoots => 9,
            WorkBucketStage::RefForwarding => 10,
            WorkBucketStage::FinalizableForwarding => 11,
            WorkBucketStage::Compact => 12,
            WorkBucketStage::RCProcessDecs => 13,
            WorkBucketStage::RCReleaseNursery => 14,
            WorkBucketStage::RCFullHeapRelease => 15,
            WorkBucketStage::PostClosure => 16,
            WorkBucketStage::RefClosure => 17,
            WorkBucketStage::Release => 18,
            WorkBucketStage::Final => 19,
        }
    }

    /// The stage in which the barrier's increment buffers are processed.
    pub fn rc_process_incs_stage() -> (r: WorkBucketStage)
        ensures
            r == WorkBucketStage::Unconstrained,
    {
        WorkBucketStage::Unconstrained
    }
}

/// One unit of collection work, carried by a bucket until a worker
/// claims it.
#[derive(Clone, Debug)]
pub enum WorkPacket {
    /// Record the trigger and ask the plan to assemble the work graph.
    ScheduleCollection,
    /// Stop the mutators and scan roots.
    StopMutators,
    /// Global preparation.
    Prepare,
    /// Per-mutator preparation.
    PrepareMutator { mutator: usize },
    /// Per-collector preparation.
    PrepareCollector,
    /// Global release.
    Release,
    /// Per-mutator release.
    ReleaseMutator { mutator: usize },
    /// Per-collector release.
    ReleaseCollector,
    /// Delegate weak-reference processing to the binding.
    ProcessWeakRefs,
    /// Flush every mutator's barrier buffers.
    FlushMutators,
    /// Scan all thread stacks on one worker.
    ScanStackRoots,
    /// Scan one mutator's stack.
    ScanStackRoot { mutator: usize },
    /// Scan globals and other VM-specific roots.
    ScanVMSpecificRoots,
    /// Open the concurrent-marking overlay.
    ConcurrentWorkStart,
    /// Close the concurrent-marking overlay.
    ConcurrentWorkEnd,
    /// Apply reference-count increments to these edges.
    ProcessIncs { edges: Vec<Address>, kind: u8 },
    /// Apply reference-count decrements to these objects.
    ProcessDecs { objects: Vec<ObjectReference> },
    /// Scan these objects' fields.
    ScanObjects { objects: Vec<ObjectReference> },
    /// Trace and update these object slots.
    ProcessEdges { edges: Vec<Address> },
    /// Re-log and scan remembered objects.
    ProcessModBuf { objects: Vec<ObjectReference> },
    /// Re-log and process remembered edges.
    EdgesProcessModBuf { edges: Vec<Address> },
    /// Clear the log bits of these edges and do nothing else.
    UnlogEdges { edges: Vec<Address> },
    /// Evacuate mature objects reachable from this remembered set.
    EvacuateMatureObjects { remset: Vec<ObjectReference> },
    /// Sweep the nursery blocks allocated since the last pause.
    ReleaseRCNursery,
    /// Resume the mutators and close the collection.
    EndOfGC,
}

/// A stage's queue of packets: a last-in-first-out main queue and a
/// first-in-first-out prioritized queue, claimable once activated.
pub struct WorkBucket {
    /// Whether workers may claim from this bucket.
    pub active: bool,
    /// The main queue; claimed newest-first.
    pub queue: Vec<WorkPacket>,
    /// The prioritized queue; claimed oldest-first.
    pub prioritized_queue: Vec<WorkPacket>,
}

impl WorkBucket {
    /// A fresh bucket with no work.
    pub fn new(active: bool) -> (r: WorkBucket)
        ensures
            r.active == active,
            r.queue@.len() == 0,
            r.prioritized_queue@.len() == 0,
    {
        WorkBucket { active, queue: Vec::new(), prioritized_queue: Vec::new() }
    }

    /// Whether workers may claim from this bucket.
    pub fn is_activated(&self) -> (r: bool)
        ensures
            r == self.active,
    {
        self.active
    }

    /// Open the bucket.
    pub fn activate(&mut self)
        ensures
            *final(self) == (WorkBucket { active: true, ..*old(self) }),
    {
        self.active = true;
    }

    /// Close the bucket; it must be drained first.
    pub fn deactivate(&mut self)
        requires
            old(self).queue@.len() == 0,
        ensures
            *final(self) == (WorkBucket { active: false, ..*old(self) }),
    {
        self.active = false;
    }

    /// Whether the bucket holds no packet.
    pub fn is_empty(&self) -> (r: bool)
        ensures
            r == (self.queue@.len() == 0 && self.prioritized_queue@.len() == 0),
    {
        self.queue.len() == 0 && self.prioritized_queue.len() == 0
    }

    /// Whether the bucket is open and exhausted: the condition for the
    /// scheduler to open the next stage.
    pub fn is_drained(&self) -> (r: bool)
        ensures
            r == (self.active && self.queue@.len() == 0 && self.prioritized_queue@.len() == 0),
    {
        self.is_activated() && self.is_empty()
    }

    /// Add one packet.
    pub fn add(&mut self, work: WorkPacket)
        ensures
            *final(self) == (WorkBucket { queue: final(self).queue, ..*old(self) }),
            final(self).queue@ == old(self).queue@.push(work),
    {
        self.queue.push(work);
    }

    /// Add one packet ahead of the main queue.
    pub fn add_prioritized(&mut self, work: WorkPacket)
        ensures
            *final(self) == (WorkBucket {
                prioritized_queue: final(self).prioritized_queue,
                ..*old(self)
            }),
            final(self).prioritized_queue@ == old(self).prioritized_queue@.push(work),
    {
        self.prioritized_queue.push(work);
    }

    /// Add a batch of packets.
    pub fn bulk_add(&mut self, mut work_vec: Vec<WorkPacket>)
        ensures
            *final(self) == (WorkBucket { queue: final(self).queue, ..*old(self) }),
            final(self).queue@ == old(self).queue@ + work_vec@,
    {
        let ghost incoming = work_vec@;
        let ghost q0 = self.queue@;
        let n = work_vec.len();
        let mut i: usize = 0;
        while i < n
            invariant
                i <= n,
                n == incoming.len(),
                work_vec@ == incoming.subrange(i as int, n as int),
                self.queue@ == q0 + incoming.subrange(0, i as int),
                self.active == old(self).active,
                self.prioritized_queue == old(self).prioritized_queue,
                q0 == old(self).queue@,
            decreases n - i,
        {
            let p = work_vec.remove(0);
            self.queue.push(p);
            proof {
                assert(work_vec@ =~= incoming.subrange(i + 1, n as int));
                assert(self.queue@ =~= q0 + incoming.subrange(0, i + 1));
            }
            i = i + 1;
        }
        proof {
            assert(self.queue@ =~= q0 + incoming);
        }
    }

    /// Claim one packet: the prioritized queue first, oldest first,
    /// then the main queue, newest first. Nothing comes out of a
    /// closed or empty bucket.
    pub fn poll(&mut self) -> (r: Option<WorkPacket>)
        ensures
            !old(self).active || (old(self).queue@.len() == 0 && old(
                self,
            ).prioritized_queue@.len() == 0) ==> r is None && *final(self) == *old(self),
            old(self).active && old(self).prioritized_queue@.len() > 0 ==> {
                &&& final(self).prioritized_queue@ == old(self).prioritized_queue@.subrange(
                    1,
                    old(self).prioritized_queue@.len() as int,
                )
                &&& final(self).queue == old(self).queue
                &&& final(self).active == old(self).active
            },
            old(self).active && old(self).prioritized_queue@.len() == 0 && old(
                self,
            ).queue@.len() > 0 ==> {
                &&& final(self).queue@ == old(self).queue@.drop_last()
                &&& final(self).prioritized_queue == old(self).prioritized_queue
                &&& final(self).active == old(self).active
            },
    {
        if !self.active {
            return None;
        }
        if self.prioritized_queue.len() > 0 {
            let p = self.prioritized_queue.remove(0);
            return Some(p);
        }
        if self.queue.len() > 0 {
            let p = self.queue.pop();
            return p;
        }
        None
    }
}

/// The packets a bucket hands out when drained alone: the prioritized
/// queue oldest-first, then the main queue newest-first.
pub open spec fn spec_bucket_drain_order(b: WorkBucket) -> Seq<WorkPacket> {
    b.prioritized_queue@ + b.queue@.reverse()
}

/// The packets the scheduler hands out when draining stages `0..i`.
pub open spec fn spec_drained_upto(buckets: Seq<WorkBucket>, i: int) -> Seq<WorkPacket>
    decreases i,
{
    if i <= 0 {
        Seq::empty()
    } else {
        spec_drained_upto(buckets, i - 1) + spec_bucket_drain_order(buckets[i - 1])
    }
}

impl WorkBucket {
    /// Take every packet out, in claim order: the prioritized queue
    /// oldest-first, then the main queue newest-first.
    pub fn drain(&mut self) -> (r: Vec<WorkPacket>)
        ensures
            r@ == spec_bucket_drain_order(*old(self)),
            final(self).queue@.len() == 0,
            final(self).prioritized_queue@.len() == 0,
            final(self).active == old(self).active,
    {
        let ghost p0 = self.prioritized_queue@;
        let ghost q0 = self.queue@;
        let mut out: Vec<WorkPacket> = Vec::new();
        proof {
            assert(self.prioritized_queue@ =~= p0.subrange(0, p0.len() as int));
            assert(out@ =~= p0.subrange(0, 0));
        }
        while self.prioritized_queue.len() > 0
            invariant
                self.active == old(self).active,
                self.queue@ == q0,
                exists|i: int|
                    0 <= i <= p0.len() && self.prioritized_queue@ == p0.subrange(i, p0.len() as int)
                        && out@ == p0.subrange(0, i),
            decreases self.prioritized_queue@.len(),
        {
            let ghost i = choose|i: int|
                0 <= i <= p0.len() && self.prioritized_queue@ == p0.subrange(i, p0.len() as int)
                    && out@ == p0.subrange(0, i);
            let p = self.prioritized_queue.remove(0);
            out.push(p);
            proof {
                assert(self.prioritized_queue@ =~= p0.subrange(i + 1, p0.len() as int));
                assert(out@ =~= p0.subrange(0, i + 1));
            }
        }
        proof {
            assert(out@ =~= p0);
            assert(self.queue@ =~= q0.subrange(0, q0.len() as int));
            assert(q0.subrange(q0.len() as int, q0.len() as int).reverse() =~= Seq::<
                WorkPacket,
            >::empty());
            assert(out@ =~= p0 + q0.subrange(q0.len() as int, q0.len() as int).reverse());
        }
        while self.queue.len() > 0
            invariant
                self.active == old(self).active,
                self.prioritized_queue@.len() == 0,
                exists|m: int|
                    0 <= m <= q0.len() && self.queue@ == q0.subrange(0, m) && out@ == p0
                        + q0.subrange(m, q0.len() as int).reverse(),
            decreases self.queue@.len(),
        {
            let ghost m = choose|m: int|
                0 <= m <= q0.len() && self.queue@ == q0.subrange(0, m) && out@ == p0 + q0.subrange(
                    m,
                    q0.len() as int,
                ).reverse();
            let p = self.queue.pop();
            match p {
                Some(w) => {
                    out.push(w);
                    proof {
                        assert(self.queue@ =~= q0.subrange(0, m - 1));
                        assert(out@ =~= p0 + q0.subrange(m - 1, q0.len() as int).reverse());
                    }
                },
                None => {},
            }
        }
        proof {
            assert(out@ =~= p0 + q0.reverse());
        }
        out
    }
}

/// The scheduler: one bucket per stage, the postponed queues for work
/// parked until after the pause, and the worker pool's parking state.
pub struct GCWorkScheduler {
    /// One bucket per stage, in canonical order.
    pub buckets: Vec<WorkBucket>,
    /// Work parked for after the current pause.
    pub postponed: Vec<WorkPacket>,
    /// Parked work to run ahead of other postponed work.
    pub postponed_prioritized: Vec<WorkPacket>,
    /// How many workers are parked on the monitor.
    pub parked_workers: usize,
    /// The size of the worker pool.
    pub num_workers: usize,
    /// Where the collector stands.
    pub gc_status: GcStatus,
    /// How many mutator stacks the current pause has scanned.
    pub scanned_stacks: usize,
}

impl GCWorkScheduler {
    /// Well-formed: one bucket per stage and no more workers parked
    /// than exist.
    pub open spec fn wf(self) -> bool {
        &&& self.buckets@.len() == NUM_STAGES
        &&& self.parked_workers <= self.num_workers
        &&& self.num_workers >= 1
    }

    /// Whether no bucket holds any packet.
    pub open spec fn spec_all_buckets_empty(self) -> bool {
        forall|i: int|
            0 <= i < self.buckets@.len() ==> (#[trigger] self.buckets@[i]).queue@.len() == 0
                && self.buckets@[i].prioritized_queue@.len() == 0
    }

    /// A fresh scheduler: only the unconstrained bucket is open, every
    /// worker is parked, and no collection is running.
    pub fn new(num_workers: usize) -> (r: GCWorkScheduler)
        requires
            num_workers >= 1,
        ensures
            r.wf(),
            r.spec_all_buckets_empty(),
            r.gc_status == GcStatus::NotInGC,
            r.parked_workers == num_workers,
            r.num_workers == num_workers,
            r.postponed@.len() == 0,
            r.postponed_prioritized@.len() == 0,
            r.buckets@[0].active,
            forall|i: int| 1 <= i < NUM_STAGES ==> !(#[trigger] r.buckets@[i]).active,
    {
        let mut buckets: Vec<WorkBucket> = Vec::new();
        buckets.push(WorkBucket::new(true));
        let mut i: usize = 1;
        while i < NUM_STAGES
            invariant
                1 <= i <= NUM_STAGES,
                buckets@.len() == i,
                buckets@[0].active,
                buckets@[0].queue@.len() == 0,
                buckets@[0].prioritized_queue@.len() == 0,
                forall|j: int|
                    1 <= j < i ==> !(#[trigger] buckets@[j]).active && buckets@[j].queue@.len()
                        == 0 && buckets@[j].prioritized_queue@.len() == 0,
            decreases NUM_STAGES - i,
        {
            buckets.push(WorkBucket::new(false));
            i = i + 1;
        }
        GCWorkScheduler {
            buckets,
            postponed: Vec::new(),
            postponed_prioritized: Vec::new(),
            parked_workers: num_workers,
            num_workers,
            gc_status: GcStatus::NotInGC,
            scanned_stacks: 0,
        }
    }

    /// Record one scanned mutator stack. The scan that completes the
    /// set makes the collection proper and resets the counter for the
    /// next pause; earlier scans only count.
    pub fn on_stack_scanned(&mut self, n_mutators: usize) -> (done: bool)
        requires
            old(self).scanned_stacks < n_mutators,
        ensures
            done == (old(self).scanned_stacks + 1 == n_mutators),
            done ==> *final(self) == (GCWorkScheduler {
                scanned_stacks: 0,
                gc_status: GcStatus::GcProper,
                ..*old(self)
            }),
            !done ==> *final(self) == (GCWorkScheduler {
                scanned_stacks: (old(self).scanned_stacks + 1) as usize,
                ..*old(self)
            }),
    {
        self.scanned_stacks = self.scanned_stacks + 1;
        if self.scanned_stacks >= n_mutators {
            self.scanned_stacks = 0;
            self.gc_status = GcStatus::GcProper;
            true
        } else {
            false
        }
    }

    /// Add one packet to a stage's bucket.
    pub fn add(&mut self, stage: WorkBucketStage, work: WorkPacket)
        requires
            old(self).wf(),
        ensures
            final(self).wf(),
            *final(self) == (GCWorkScheduler { buckets: final(self).buckets, ..*old(self) }),
            final(self).buckets@ == old(self).buckets@.update(
                stage.spec_order(),
                final(self).buckets@[stage.spec_order()],
            ),
            final(self).buckets@[stage.spec_order()] == (WorkBucket {
                queue: final(self).buckets@[stage.spec_order()].queue,
                ..old(self).buckets@[stage.spec_order()]
            }),
            final(self).buckets@[stage.spec_order()].queue@ == old(
                self,
            ).buckets@[stage.spec_order()].queue@.push(work),
    {
        let i = stage.order();
        let bucket = &mut self.buckets[i];
        bucket.add(work);
        proof {
            assert(final(self).buckets@ =~= old(self).buckets@.update(
                stage.spec_order(),
                final(self).buckets@[stage.spec_order()],
            ));
        }
    }

    /// Add one packet ahead of a stage's main queue.
    pub fn add_prioritized(&mut self, stage: WorkBucketStage, work: WorkPacket)
        requires
            old(self).wf(),
        ensures
            final(self).wf(),
            *final(self) == (GCWorkScheduler { buckets: final(self).buckets, ..*old(self) }),
            final(self).buckets@ == old(self).buckets@.update(
                stage.spec_order(),
                final(self).buckets@[stage.spec_order()],
            ),
            final(self).buckets@[stage.spec_order()] == (WorkBucket {
                prioritized_queue: final(self).buckets@[stage.spec_order()].prioritized_queue,
                ..old(self).buckets@[stage.spec_order()]
            }),
            final(self).buckets@[stage.spec_order()].prioritized_queue@ == old(
                self,
            ).buckets@[stage.spec_order()].prioritized_queue@.push(work),
    {
        let i = stage.order();
        let bucket = &mut self.buckets[i];
        bucket.add_prioritized(work);
        proof {
            assert(final(self).buckets@ =~= old(self).buckets@.update(
                stage.spec_order(),
                final(self).buckets@[stage.spec_order()],
            ));
        }
    }

    /// Park one packet for after the current pause.
    pub fn postpone(&mut self, work: WorkPacket)
        ensures
            *final(self) == (GCWorkScheduler { postponed: final(self).postponed, ..*old(self) }),
            final(self).postponed@ == old(self).postponed@.push(work),
    {
        self.postponed.push(work);
    }

    /// Park one packet to run ahead of other postponed work.
    pub fn postpone_prioritized(&mut self, work: WorkPacket)
        ensures
            *final(self) == (GCWorkScheduler {
                postponed_prioritized: final(self).postponed_prioritized,
                ..*old(self)
            }),
            final(self).postponed_prioritized@ == old(self).postponed_prioritized@.push(work),
    {
        self.postponed_prioritized.push(work);
    }

    /// Park a batch of packets for after the current pause.
    pub fn postpone_all(&mut self, mut work_vec: Vec<WorkPacket>)
        ensures
            *final(self) == (GCWorkScheduler { postponed: final(self).postponed, ..*old(self) }),
            final(self).postponed@ == old(self).postponed@ + work_vec@,
    {
        self.postponed.append(&mut work_vec);
    }

    /// Whether every bucket that has been opened is also empty: the
    /// condition under which the next stage may open.
    pub fn all_activated_buckets_drained(&self) -> (r: bool)
        requires
            self.wf(),
        ensures
            r == (forall|i: int|
                0 <= i < self.buckets@.len() && (#[trigger] self.buckets@[i]).active
                    ==> self.buckets@[i].queue@.len() == 0
                    && self.buckets@[i].prioritized_queue@.len() == 0),
    {
        let mut i: usize = 0;
        while i < NUM_STAGES
            invariant
                self.wf(),
                i <= NUM_STAGES,
                forall|j: int|
                    0 <= j < i && (#[trigger] self.buckets@[j]).active
                        ==> self.buckets@[j].queue@.len() == 0
                        && self.buckets@[j].prioritized_queue@.len() == 0,
            decreases NUM_STAGES - i,
        {
            let b = &self.buckets[i];
            if b.is_activated() && !b.is_empty() {
                return false;
            }
            i = i + 1;
        }
        true
    }

    /// Close the collection: every bucket but the unconstrained one is
    /// closed again, every worker parks, and the status returns to "not
    /// in GC". Nothing may still be queued.
    pub fn end_of_gc(&mut self)
        requires
            old(self).wf(),
            old(self).spec_all_buckets_empty(),
        ensures
            final(self).wf(),
            final(self).spec_all_buckets_empty(),
            final(self).gc_status == GcStatus::NotInGC,
            final(self).parked_workers == final(self).num_workers,
            final(self).num_workers == old(self).num_workers,
            final(self).postponed@ == old(self).postponed@,
            final(self).postponed_prioritized@ == old(self).postponed_prioritized@,
            final(self).buckets@[0].active,
            forall|i: int| 1 <= i < NUM_STAGES ==> !(#[trigger] final(self).buckets@[i]).active,
    {
        let mut i: usize = 1;
        while i < NUM_STAGES
            invariant
                1 <= i <= NUM_STAGES,
                self.buckets@.len() == NUM_STAGES,
                self.postponed == old(self).postponed,
                self.postponed_prioritized == old(self).postponed_prioritized,
                self.parked_workers == old(self).parked_workers,
                self.num_workers == old(self).num_workers,
                self.gc_status == old(self).gc_status,
                old(self).wf(),
                old(self).spec_all_buckets_empty(),
                forall|j: int|
                    0 <= j < NUM_STAGES ==> (#[trigger] self.buckets@[j]).queue@ == old(
                        self,
                    ).buckets@[j].queue@ && self.buckets@[j].prioritized_queue@ == old(
                        self,
                    ).buckets@[j].prioritized_queue@,
                forall|j: int| 1 <= j < i ==> !(#[trigger] self.buckets@[j]).active,
                self.buckets@[0] == old(self).buckets@[0],
            decreases NUM_STAGES - i,
        {
            proof {
                assert((#[trigger] self.buckets@[i as int]).queue@ == old(
                    self,
                ).buckets@[i as int].queue@);
                assert(old(self).buckets@[i as int].queue@.len() == 0);
            }
            let bucket = &mut self.buckets[i];
            bucket.deactivate();
            i = i + 1;
        }
        let first = &mut self.buckets[0];
        first.activate();
        self.parked_workers = self.num_workers;
        self.gc_status = GcStatus::NotInGC;
        proof {
            assert(final(self).buckets@[0].active);
        }
    }
}

/// The per-mutator preparation packets, one per live mutator.
pub open spec fn spec_prepare_mutator_packets(n: int) -> Seq<WorkPacket> {
    Seq::new(n as nat, |i: int| WorkPacket::PrepareMutator { mutator: i as usize })
}

/// The per-mutator stack-scan packets, one per live mutator.
pub open spec fn spec_scan_stack_packets(n: int) -> Seq<WorkPacket> {
    Seq::new(n as nat, |i: int| WorkPacket::ScanStackRoot { mutator: i as usize })
}

impl GCWorkScheduler {
    /// Assemble the work graph of one pause: stopping the mutators,
    /// global and per-mutator preparation, stack scanning, weak
    /// references and mutator flushing, release, decrement processing
    /// (parked instead when decrements are lazy), and the end of the
    /// collection. A concurrent pause also opens the marking overlay.
    pub fn schedule_collection(
        &mut self,
        pause: Pause,
        n_mutators: usize,
        single_thread_scan: bool,
        lazy_decrements: bool,
        decs: Vec<ObjectReference>,
    )
        requires
            old(self).wf(),
        ensures
            final(self).wf(),
            final(self).gc_status == GcStatus::GcPrepare,
            final(self).num_workers == old(self).num_workers,
            final(self).parked_workers == old(self).parked_workers,
            ({
                let b0 = old(self).buckets@;
                let b1 = final(self).buckets@;
                let decs_packet = WorkPacket::ProcessDecs { objects: decs };
                &&& b1.len() == NUM_STAGES
                &&& b1[0].queue@ == b0[0].queue@.push(WorkPacket::StopMutators)
                &&& (pause == Pause::InitialMark ==> b1[2].queue@ == b0[2].queue@.push(
                    WorkPacket::ConcurrentWorkStart,
                ))
                &&& (pause != Pause::InitialMark ==> b1[2].queue@ == b0[2].queue@)
                &&& b1[1].queue@ == b0[1].queue@.push(WorkPacket::Prepare)
                    + spec_prepare_mutator_packets(n_mutators as int) + (if single_thread_scan {
                    seq![WorkPacket::ScanStackRoots]
                } else {
                    spec_scan_stack_packets(n_mutators as int)
                })
                &&& b1[17].queue@ == b0[17].queue@.push(WorkPacket::ProcessWeakRefs).push(
                    WorkPacket::FlushMutators,
                )
                &&& b1[18].queue@ == b0[18].queue@.push(WorkPacket::Release)
                &&& (!lazy_decrements ==> b1[13].queue@ == b0[13].queue@.push(decs_packet)
                    && final(self).postponed@ == old(self).postponed@)
                &&& (lazy_decrements ==> b1[13].queue@ == b0[13].queue@ && final(self).postponed@
                    == old(self).postponed@.push(decs_packet))
                &&& b1[19].queue@ == b0[19].queue@.push(WorkPacket::EndOfGC)
            }),
    {
        self.gc_status = GcStatus::GcPrepare;
        self.add(WorkBucketStage::Unconstrained, WorkPacket::StopMutators);
        if matches!(pause, Pause::InitialMark) {
            self.add(WorkBucketStage::PreClosure, WorkPacket::ConcurrentWorkStart);
        }
        self.add(WorkBucketStage::Prepare, WorkPacket::Prepare);
        let ghost base1: GCWorkScheduler = *self;
        let mut m: usize = 0;
        while m < n_mutators
            invariant
                m <= n_mutators,
                self.wf(),
                self.buckets@.len() == NUM_STAGES,
                self.buckets@[1].queue@ == base1.buckets@[1].queue@
                    + spec_prepare_mutator_packets(m as int),
                forall|j: int|
                    0 <= j < NUM_STAGES && j != 1 ==> #[trigger] self.buckets@[j]
                        == base1.buckets@[j],
                self.buckets@[1].active == base1.buckets@[1].active,
                self.buckets@[1].prioritized_queue@ == base1.buckets@[1].prioritized_queue@,
                self.postponed@ == base1.postponed@,
                self.postponed_prioritized@ == base1.postponed_prioritized@,
                self.parked_workers == base1.parked_workers,
                self.num_workers == base1.num_workers,
                self.gc_status == base1.gc_status,
                base1.wf(),
            decreases n_mutators - m,
        {
            self.add(WorkBucketStage::Prepare, WorkPacket::PrepareMutator { mutator: m });
            proof {
                assert(self.buckets@[1].queue@ =~= base1.buckets@[1].queue@
                    + spec_prepare_mutator_packets(m + 1));
            }
            m = m + 1;
        }
        let ghost base2: GCWorkScheduler = *self;
        if single_thread_scan {
            self.add(WorkBucketStage::Prepare, WorkPacket::ScanStackRoots);
            proof {
                assert(self.buckets@[1].queue@ =~= base2.buckets@[1].queue@ + seq![
                    WorkPacket::ScanStackRoots,
                ]);
            }
        } else {
            let mut k: usize = 0;
            while k < n_mutators
                invariant
                    k <= n_mutators,
                    self.wf(),
                    self.buckets@.len() == NUM_STAGES,
                    self.buckets@[1].queue@ == base2.buckets@[1].queue@ + spec_scan_stack_packets(
                        k as int,
                    ),
                    forall|j: int|
                        0 <= j < NUM_STAGES && j != 1 ==> #[trigger] self.buckets@[j]
                            == base2.buckets@[j],
                    self.buckets@[1].active == base2.buckets@[1].active,
                    self.buckets@[1].prioritized_queue@ == base2.buckets@[1].prioritized_queue@,
                    self.postponed@ == base2.postponed@,
                    self.postponed_prioritized@ == base2.postponed_prioritized@,
                    self.parked_workers == base2.parked_workers,
                    self.num_workers == base2.num_workers,
                    self.gc_status == base2.gc_status,
                    base2.wf(),
                decreases n_mutators - k,
            {
                self.add(WorkBucketStage::Prepare, WorkPacket::ScanStackRoot { mutator: k });
                proof {
                    assert(self.buckets@[1].queue@ =~= base2.buckets@[1].queue@
                        + spec_scan_stack_packets(k + 1));
                }
                k = k + 1;
            }
        }
        proof {
            assert(spec_prepare_mutator_packets(0) =~= Seq::<WorkPacket>::empty());
            assert(spec_scan_stack_packets(0) =~= Seq::<WorkPacket>::empty());
        }
        self.add(WorkBucketStage::RefClosure, WorkPacket::ProcessWeakRefs);
        self.add(WorkBucketStage::RefClosure, WorkPacket::FlushMutators);
        self.add(WorkBucketStage::Release, WorkPacket::Release);
        let decs_packet = WorkPacket::ProcessDecs { objects: decs };
        if lazy_decrements {
            self.postpone(decs_packet);
        } else {
            self.add(WorkBucketStage::RCProcessDecs, decs_packet);
        }
        self.add(WorkBucketStage::Final, WorkPacket::EndOfGC);
    }

    /// Drive the pause to its end: open the buckets in stage order,
    /// drain each, and close the collection. Returns the packets in the
    /// order workers claimed them. Afterwards no packet is queued or in
    /// flight, every worker is parked, and the status is "not in GC".
    pub fn execute_pause(&mut self) -> (executed: Vec<WorkPacket>)
        requires
            old(self).wf(),
        ensures
            final(self).wf(),
            executed@ == spec_drained_upto(old(self).buckets@, NUM_STAGES as int),
            final(self).spec_all_buckets_empty(),
            final(self).gc_status == GcStatus::NotInGC,
            final(self).parked_workers == final(self).num_workers,
            final(self).num_workers == old(self).num_workers,
            final(self).postponed@ == old(self).postponed@,
            final(self).postponed_prioritized@ == old(self).postponed_prioritized@,
    {
        let mut executed: Vec<WorkPacket> = Vec::new();
        let mut i: usize = 0;
        while i < NUM_STAGES
            invariant
                i <= NUM_STAGES,
                self.buckets@.len() == NUM_STAGES,
                self.postponed == old(self).postponed,
                self.postponed_prioritized == old(self).postponed_prioritized,
                self.parked_workers == old(self).parked_workers,
                self.num_workers == old(self).num_workers,
                self.gc_status == old(self).gc_status,
                old(self).wf(),
                executed@ == spec_drained_upto(old(self).buckets@, i as int),
                forall|j: int|
                    0 <= j < i ==> (#[trigger] self.buckets@[j]).queue@.len() == 0
                        && self.buckets@[j].prioritized_queue@.len() == 0,
                forall|j: int|
                    i <= j < NUM_STAGES ==> (#[trigger] self.buckets@[j]).queue@ == old(
                        self,
                    ).buckets@[j].queue@ && self.buckets@[j].prioritized_queue@ == old(
                        self,
                    ).buckets@[j].prioritized_queue@,
            decreases NUM_STAGES - i,
        {
            let bucket = &mut self.buckets[i];
            bucket.activate();
            let mut claimed = bucket.drain();
            executed.append(&mut claimed);
            proof {
                assert(executed@ =~= spec_drained_upto(old(self).buckets@, i + 1));
            }
            i = i + 1;
        }
        self.end_of_gc();
        executed
    }
}

/// The typed constructors behind the packet sum type: buckets store
/// erased packets, and each packet kind builds its own.
pub struct ScheduleCollection;

impl ScheduleCollection {
    /// The packet that records the trigger and assembles the work graph.
    pub fn new() -> (r: WorkPacket)
        ensures
            r == WorkPacket::ScheduleCollection,
    {
        WorkPacket::ScheduleCollection
    }
}

/// Global preparation.
pub struct Prepare;

impl Prepare {
    /// The packet that runs the plan's prepare.
    pub fn new() -> (r: WorkPacket)
        ensures
            r == WorkPacket::Prepare,
    {
        WorkPacket::Prepare
    }
}

/// Per-mutator preparation.
pub struct PrepareMutator;

impl PrepareMutator {
    /// The packet that prepares one mutator.
    pub fn new(mutator: usize) -> (r: WorkPacket)
        ensures
            r == (WorkPacket::PrepareMutator { mutator }),
    {
        WorkPacket::PrepareMutator { mutator }
    }
}

/// Per-collector preparation.
pub struct PrepareCollector;

impl PrepareCollector {
    /// The packet that prepares one collector.
    pub fn new() -> (r: WorkPacket)
        ensures
            r == WorkPacket::PrepareCollector,
    {
        WorkPacket::PrepareCollector
    }
}

/// Global release.
pub struct Release;

impl Release {
    /// The packet that runs the plan's release.
    pub fn new() -> (r: WorkPacket)
        ensures
            r == WorkPacket::Release,
    {
        WorkPacket::Release
    }
}

/// Per-mutator release.
pub struct ReleaseMutator;

impl ReleaseMutator {
    /// The packet that releases one mutator.
    pub fn new(mutator: usize) -> (r: WorkPacket)
        ensures
            r == (WorkPacket::ReleaseMutator { mutator }),
    {
        WorkPacket::ReleaseMutator { mutator }
    }
}

/// Per-collector release.
pub struct ReleaseCollector;

impl ReleaseCollector {
    /// The packet that releases one collector.
    pub fn new() -> (r: WorkPacket)
        ensures
            r == WorkPacket::ReleaseCollector,
    {
        WorkPacket::ReleaseCollector
    }
}

/// Stopping the world.
pub struct StopMutators;

impl StopMutators {
    /// The packet that stops the mutators and scans roots.
    pub fn new() -> (r: WorkPacket)
        ensures
            r == WorkPacket::StopMutators,
    {
        WorkPacket::StopMutators
    }
}

/// The end of the collection.
pub struct EndOfGC;

impl EndOfGC {
    /// The packet that resumes the mutators and closes the collection.
    pub fn new() -> (r: WorkPacket)
        ensures
            r == WorkPacket::EndOfGC,
    {
        WorkPacket::EndOfGC
    }
}

/// Weak-reference processing, delegated to the binding.
pub struct ProcessWeakRefs;

impl ProcessWeakRefs {
    /// The packet that drives the weak-reference protocol.
    pub fn new() -> (r: WorkPacket)
        ensures
            r == WorkPacket::ProcessWeakRefs,
    {
        WorkPacket::ProcessWeakRefs
    }
}

/// Single-threaded stack scanning.
pub struct ScanStackRoots;

impl ScanStackRoots {
    /// The packet that scans every thread stack on one worker.
    pub fn new() -> (r: WorkPacket)
        ensures
            r == WorkPacket::ScanStackRoots,
    {
        WorkPacket::ScanStackRoots
    }
}

/// Per-mutator stack scanning.
pub struct ScanStackRoot;

impl ScanStackRoot {
    /// The packet that scans one mutator's stack.
    pub fn new(mutator: usize) -> (r: WorkPacket)
        ensures
            r == (WorkPacket::ScanStackRoot { mutator }),
    {
        WorkPacket::ScanStackRoot { mutator }
    }
}

/// Scanning globals and other VM-specific roots.
pub struct ScanVMSpecificRoots;

impl ScanVMSpecificRoots {
    /// The packet that scans the VM-specific roots.
    pub fn new() -> (r: WorkPacket)
        ensures
            r == WorkPacket::ScanVMSpecificRoots,
    {
        WorkPacket::ScanVMSpecificRoots
    }
}

/// Scanning a batch of objects.
pub struct ScanObjects;

impl ScanObjects {
    /// The packet that scans these objects' fields.
    pub fn new(objects: Vec<ObjectReference>) -> (r: WorkPacket)
        ensures
            (r matches WorkPacket::ScanObjects { objects: o } && o@ == objects@),
    {
        WorkPacket::ScanObjects { objects }
    }
}

/// Re-logging and scanning remembered objects.
pub struct ProcessModBuf;

impl ProcessModBuf {
    /// The packet over a mod-buffer of objects.
    pub fn new(objects: Vec<ObjectReference>) -> (r: WorkPacket)
        ensures
            (r matches WorkPacket::ProcessModBuf { objects: o } && o@ == objects@),
    {
        WorkPacket::ProcessModBuf { objects }
    }
}

/// Re-logging and processing remembered edges.
pub struct EdgesProcessModBuf;

impl EdgesProcessModBuf {
    /// The packet over a mod-buffer of edges.
    pub fn new(edges: Vec<Address>) -> (r: WorkPacket)
        ensures
            (r matches WorkPacket::EdgesProcessModBuf { edges: e } && e@ == edges@),
    {
        WorkPacket::EdgesProcessModBuf { edges }
    }
}

/// Clearing edges' log bits without other work.
pub struct UnlogEdges;

impl UnlogEdges {
    /// The packet that clears the log bits of these edges.
    pub fn new(edges: Vec<Address>) -> (r: WorkPacket)
        ensures
            (r matches WorkPacket::UnlogEdges { edges: e } && e@ == edges@),
    {
        WorkPacket::UnlogEdges { edges }
    }

    /// Clear every given edge's log bit, and nothing else.
    pub fn do_work(edges: &Vec<Address>, space: &mut crate::space::ImmixSpace)
        requires
            old(space).wf(),
            forall|k: int|
                0 <= k < edges@.len() ==> old(space).in_space_pos(
                    (#[trigger] edges@[k]).spec_usize(),
                ),
        ensures
            final(space).wf(),
            *final(space) == (crate::space::ImmixSpace {
                unlog_bits: final(space).unlog_bits,
                ..*old(space)
            }),
            forall|k: int|
                0 <= k < edges@.len() ==> final(space).unlog_bits.spec_at(
                    (#[trigger] edges@[k]).spec_usize(),
                ) == crate::barrier::UNLOGGED_VALUE,
    {
        let mut k: usize = 0;
        let n = edges.len();
        while k < n
            invariant
                k <= n,
                n == edges@.len(),
                space.wf(),
                *space == (crate::space::ImmixSpace {
                    unlog_bits: space.unlog_bits,
                    ..*old(space)
                }),
                forall|j: int|
                    0 <= j < edges@.len() ==> old(space).in_space_pos(
                        (#[trigger] edges@[j]).spec_usize(),
                    ),
                forall|j: int|
                    0 <= j < k ==> space.unlog_bits.spec_at((#[trigger] edges@[j]).spec_usize())
                        == crate::barrier::UNLOGGED_VALUE,
            decreases n - k,
        {
            proof {
                space.lemma_word_tables(edges@[k as int].spec_usize());
                space.unlog_bits.lemma_in_bounds(edges@[k as int].spec_usize());
                assert forall|j: int|
                    0 <= j < k implies space.unlog_bits.spec_bytes().update(
                    space.unlog_bits.spec_index_of(edges@[k as int].spec_usize()),
                    crate::barrier::UNLOGGED_VALUE,
                )[space.unlog_bits.spec_index_of((#[trigger] edges@[j]).spec_usize())]
                    == crate::barrier::UNLOGGED_VALUE by {
                    space.unlog_bits.lemma_in_bounds(edges@[j].spec_usize());
                }
            }
            let e = edges[k];
            space.unlog_bits.store(e, crate::barrier::UNLOGGED_VALUE);
            k = k + 1;
        }
    }
}

/// Evacuating mature objects through a remembered set.
pub struct EvacuateMatureObjects;

impl EvacuateMatureObjects {
    /// The packet over a remembered set of objects.
    pub fn new(remset: Vec<ObjectReference>) -> (r: WorkPacket)
        ensures
            (r matches WorkPacket::EvacuateMatureObjects { remset: s } && s@ == remset@),
    {
        WorkPacket::EvacuateMatureObjects { remset }
    }
}

/// The state shared by edge-processing packets: the slots to process,
/// the nodes they produced, and whether the slots are roots.
pub struct ProcessEdgesBase {
    /// The slots to process.
    pub edges: Vec<Address>,
    /// The nodes found live while processing.
    pub nodes: Vec<ObjectReference>,
    /// Whether the slots are roots.
    pub roots: bool,
}

impl ProcessEdgesBase {
    /// A base over a batch of slots.
    pub fn new(edges: Vec<Address>, roots: bool) -> (r: ProcessEdgesBase)
        ensures
            r.edges@ == edges@,
            r.nodes@.len() == 0,
            r.roots == roots,
    {
        ProcessEdgesBase { edges, nodes: Vec::new(), roots }
    }

    /// Take the produced nodes, leaving none behind.
    pub fn pop_nodes(&mut self) -> (r: Vec<ObjectReference>)
        ensures
            r@ == old(self).nodes@,
            final(self).nodes@.len() == 0,
            final(self).edges == old(self).edges,
            final(self).roots == old(self).roots,
    {
        let mut out: Vec<ObjectReference> = Vec::new();
        core::mem::swap(&mut out, &mut self.nodes);
        out
    }
}

} // verus!
