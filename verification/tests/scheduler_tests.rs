//! The work-packet scheduler: bucket order, the pause work graph, and
//! the state a finished pause leaves behind.

use lxr::plan::{select_pause_kind, GcStatus, Pause};
use lxr::scheduler::{GCWorkScheduler, WorkBucket, WorkBucketStage, WorkPacket, NUM_STAGES};

/// After a pause ends, no work packet is queued or in flight, every
/// worker is parked, and the collector is out of the collection.
#[test]
fn pause_ends_parked_and_idle() {
    let mut sched = GCWorkScheduler::new(8);
    sched.schedule_collection(Pause::RefCount, 3, true, false, vec![]);
    assert_eq!(sched.gc_status, GcStatus::GcPrepare);
    let executed = sched.execute_pause();
    assert!(matches!(executed[0], WorkPacket::StopMutators));
    assert!(matches!(executed.last().unwrap(), WorkPacket::EndOfGC));
    for b in &sched.buckets {
        assert!(b.queue.is_empty());
        assert!(b.prioritized_queue.is_empty());
    }
    assert_eq!(sched.parked_workers, sched.num_workers);
    assert_eq!(sched.gc_status, GcStatus::NotInGC);
}

/// The pause work graph holds the canonical packets in stage order.
#[test]
fn collection_work_graph() {
    let mut sched = GCWorkScheduler::new(2);
    sched.schedule_collection(Pause::InitialMark, 2, false, true, vec![]);
    // Unconstrained: stopping the world.
    assert!(matches!(sched.buckets[0].queue[0], WorkPacket::StopMutators));
    // Prepare: global prepare, two mutators, two stack scans.
    assert!(matches!(sched.buckets[1].queue[0], WorkPacket::Prepare));
    assert!(matches!(
        sched.buckets[1].queue[1],
        WorkPacket::PrepareMutator { mutator: 0 }
    ));
    assert!(matches!(
        sched.buckets[1].queue[3],
        WorkPacket::ScanStackRoot { mutator: 0 }
    ));
    // The concurrent overlay opens before the closure.
    assert!(matches!(sched.buckets[2].queue[0], WorkPacket::ConcurrentWorkStart));
    // Weak references and mutator flushing, then release, then the end.
    assert!(matches!(sched.buckets[17].queue[0], WorkPacket::ProcessWeakRefs));
    assert!(matches!(sched.buckets[17].queue[1], WorkPacket::FlushMutators));
    assert!(matches!(sched.buckets[18].queue[0], WorkPacket::Release));
    assert!(matches!(sched.buckets[19].queue[0], WorkPacket::EndOfGC));
    // Lazy decrements are parked, not queued.
    assert!(sched.buckets[13].queue.is_empty());
    assert!(matches!(
        sched.postponed[0],
        WorkPacket::ProcessDecs { .. }
    ));
}

#[test]
fn bucket_poll_order_and_stages() {
    let mut bucket = WorkBucket::new(false);
    bucket.add(WorkPacket::Prepare);
    // A closed bucket yields nothing.
    assert!(bucket.poll().is_none());
    bucket.activate();
    bucket.add(WorkPacket::Release);
    bucket.add_prioritized(WorkPacket::StopMutators);
    // Prioritized first, then the main queue newest-first.
    assert!(matches!(bucket.poll(), Some(WorkPacket::StopMutators)));
    assert!(matches!(bucket.poll(), Some(WorkPacket::Release)));
    assert!(matches!(bucket.poll(), Some(WorkPacket::Prepare)));
    assert!(bucket.poll().is_none());
    assert!(bucket.is_drained());
    assert_eq!(WorkBucketStage::Final.order(), NUM_STAGES - 1);
    assert_eq!(WorkBucketStage::Unconstrained.order(), 0);
    assert_eq!(WorkBucketStage::rc_process_incs_stage().order(), 0);
}

#[test]
fn pause_kind_selection() {
    assert_eq!(
        select_pause_kind(false, false, false, true, false, false, false),
        Pause::FullTraceDefrag
    );
    assert_eq!(
        select_pause_kind(true, false, false, false, false, false, false),
        Pause::FullTraceFast
    );
    assert_eq!(
        select_pause_kind(false, false, false, false, false, true, false),
        Pause::FinalMark
    );
    assert_eq!(
        select_pause_kind(false, false, false, false, false, false, true),
        Pause::InitialMark
    );
    assert_eq!(
        select_pause_kind(false, false, false, false, false, false, false),
        Pause::RefCount
    );
}
