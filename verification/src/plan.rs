//! The plan: pause kinds, collection status, and the decision logic
//! that picks the next pause.

use vstd::prelude::*;

verus! {

/// The kind of a stop-the-world pause.
#[derive(Copy, Clone, Debug, PartialEq, Eq, Structural)]
pub enum Pause {
    /// A full trace without evacuation.
    FullTraceFast,
    /// A full trace with evacuation of the collection set.
    FullTraceDefrag,
    /// Increment and decrement processing only; no tracing.
    RefCount,
    /// Scan roots and hand the closure to the concurrent markers.
    InitialMark,
    /// Drain the concurrent markers' residue and sweep.
    FinalMark,
}

/// Where the collector stands between and during pauses.
#[derive(Copy, Clone, Debug, PartialEq, Eq, Structural)]
pub enum GcStatus {
    /// No collection is running.
    NotInGC,
    /// A collection was triggered and is being set up.
    GcPrepare,
    /// Collection work is running.
    GcProper,
}

/// Which pause the plan schedules, given what it knows at the trigger:
/// an emergency or user-forced or repeated attempt forces a full trace,
/// with defrag when the defrag policy asked for it; otherwise the
/// concurrent-marking overlay turns the pause into its initial or final
/// mark, and plain reference counting remains.
pub open spec fn spec_pause_kind(
    emergency: bool,
    force_full: bool,
    attempts_exceeded: bool,
    in_defrag: bool,
    cycle_collection: bool,
    concurrent_marking_in_progress: bool,
    concurrent: bool,
) -> Pause {
    if in_defrag {
        Pause::FullTraceDefrag
    } else if emergency || force_full || attempts_exceeded || cycle_collection {
        Pause::FullTraceFast
    } else if concurrent_marking_in_progress {
        Pause::FinalMark
    } else if concurrent {
        Pause::InitialMark
    } else {
        Pause::RefCount
    }
}

/// Pick the pause kind for the next collection.
pub fn select_pause_kind(
    emergency: bool,
    force_full: bool,
    attempts_exceeded: bool,
    in_defrag: bool,
    cycle_collection: bool,
    concurrent_marking_in_progress: bool,
    concurrent: bool,
) -> (r: Pause)
    ensures
        r == spec_pause_kind(
            emergency,
            force_full,
            attempts_exceeded,
            in_defrag,
            cycle_collection,
            concurrent_marking_in_progress,
            concurrent,
        ),
{
    if in_defrag {
        Pause::FullTraceDefrag
    } else if emergency || force_full || attempts_exceeded || cycle_collection {
        Pause::FullTraceFast
    } else if concurrent_marking_in_progress {
        Pause::FinalMark
    } else if concurrent {
        Pause::InitialMark
    } else {
        Pause::RefCount
    }
}

/// Whether the next collection must perform a backup cycle collection:
/// the free-page reserve has fallen under the cycle trigger threshold,
/// the collection was forced to cover the full heap, the previous
/// attempt did not free enough, or this is an emergency.
pub fn decide_cycle_collection(
    pages_avail: usize,
    cycle_trigger_threshold: usize,
    force_full: bool,
    attempts: usize,
    emergency: bool,
) -> (r: bool)
    ensures
        r == (pages_avail < cycle_trigger_threshold || force_full || attempts > 1 || emergency),
{
    pages_avail < cycle_trigger_threshold || force_full || attempts > 1 || emergency
}

/// The packet that runs the plan's reference-counting prepare on a
/// worker.
pub struct FastRCPrepare;

impl FastRCPrepare {
    /// Run the prepare against the space for the given pause: a pause
    /// that traces takes the marked state, any other leaves the space
    /// as it was.
    pub fn do_work(space: &mut crate::space::ImmixSpace, pause: Pause)
        requires
            old(space).wf(),
            pause != Pause::FullTraceDefrag,
        ensures
            final(space).wf(),
            *final(space) == (crate::space::ImmixSpace {
                mark_state: final(space).mark_state,
                ..*old(space)
            }),
            final(space).mark_state == (if pause == Pause::FullTraceFast || pause
                == Pause::InitialMark {
                crate::space::MARKED_STATE
            } else {
                old(space).mark_state
            }),
    {
        space.prepare_rc(pause);
    }
}

/// Record an edge and the reference written through it, for the
/// field-barrier validation harness.
pub fn record_edge_for_validation(
    validation: &mut Vec<(crate::address::Address, crate::address::ObjectReference)>,
    slot: crate::address::Address,
    obj: crate::address::ObjectReference,
)
    ensures
        final(validation)@ == old(validation)@.push((slot, obj)),
{
    validation.push((slot, obj));
}

/// A mutator: its write barrier and its promotion accounting.
pub struct Mutator {
    /// Which barrier the plan installed.
    pub barrier_selector: crate::barrier::BarrierSelector,
    /// The field-logging barrier, live when selected.
    pub field_barrier: crate::barrier::FieldLoggingBarrier,
    /// The object-remembering barrier, live when selected.
    pub object_barrier: crate::barrier::ObjectRememberingBarrier,
    /// This mutator's promotion accounting.
    pub predictor: crate::predictor::SurvivalRatioPredictorLocal,
}

/// Create a mutator for the Immix plan, with the barrier the plan's
/// flags select: the field-logging barrier under reference counting or
/// concurrent marking, the object barrier otherwise.
pub fn create_immix_mutator(ref_count: bool, concurrent_marking: bool, lazy_decrements: bool) -> (r:
    Mutator)
    ensures
        r.barrier_selector == (if ref_count || concurrent_marking {
            crate::barrier::BarrierSelector::FieldLoggingBarrier
        } else {
            crate::barrier::BarrierSelector::ObjectBarrier
        }),
        r.field_barrier.semantics.incs@.len() == 0,
        r.field_barrier.semantics.decs@.len() == 0,
        r.object_barrier.modbuf@.len() == 0,
        r.predictor.promote_vol == 0,
{
    let selector = if ref_count || concurrent_marking {
        crate::barrier::BarrierSelector::FieldLoggingBarrier
    } else {
        crate::barrier::BarrierSelector::ObjectBarrier
    };
    Mutator {
        barrier_selector: selector,
        field_barrier: crate::barrier::FieldLoggingBarrier::new(
            crate::barrier::FLBKind::SATB,
            concurrent_marking,
            lazy_decrements,
        ),
        object_barrier: crate::barrier::ObjectRememberingBarrier::new(),
        predictor: crate::predictor::SurvivalRatioPredictorLocal::new(),
    }
}

} // verus!
