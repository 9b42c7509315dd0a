//! Increment batches, nursery sweeping, deferred releases, and the
//! smaller bookkeeping pieces.

use lxr::address::{Address, ObjectReference};
use lxr::block::BlockState;
use lxr::closure::ObjectsClosure;
use lxr::malloc::{meta_space_mapped, MallocSpace};
use lxr::memory::HeapMemory;
use lxr::meta::ByteTable;
use lxr::plan::Pause;
use lxr::predictor::SurvivalRatioPredictorLocal;
use lxr::rcwork::{ProcessIncs, EDGE_KIND_MATURE};
use lxr::scheduler::GCWorkScheduler;
use lxr::space::ImmixSpace;
use lxr::{BYTES_IN_CHUNK, WORDS_IN_BLOCK};

const BASE: usize = 0x1000_0000;

#[test]
fn increment_batch_reports_roots_in_order() {
    let mut space = ImmixSpace::new(Address::from_usize(BASE), 2);
    let mut mem = HeapMemory::new(Address::from_usize(BASE), 2 * WORDS_IN_BLOCK);
    let o1 = BASE + 512;
    let o2 = BASE + 1024;
    let e1 = Address::from_usize(BASE + 16);
    let e2 = Address::from_usize(BASE + 24);
    let e3 = Address::from_usize(BASE + 32);
    mem.store(e1, o1);
    mem.store(e3, o2);
    let mut incs = ProcessIncs::new(vec![e1, e2, e3], EDGE_KIND_MATURE);
    let roots = incs.process_incs(&mut space, &mem);
    let raw: Vec<usize> = roots.iter().map(|o| o.value()).collect();
    assert_eq!(raw, vec![o1, o2]);
    assert_eq!(space.rc.count(Address::from_usize(o1).to_object_reference()), 1);
    assert_eq!(space.rc.count(Address::from_usize(o2).to_object_reference()), 1);
}

#[test]
fn nursery_sweep_and_deferred_release() {
    let mut space = ImmixSpace::new(Address::from_usize(BASE), 3);
    let dead = space.get_clean_block(false).unwrap();
    let live = space.get_clean_block(false).unwrap();
    space.rc.inc(live.start().to_object_reference()).unwrap();
    assert!(space.rc_sweep_nursery(dead));
    assert!(!space.rc_sweep_nursery(live));
    assert_eq!(dead.get_state(&space.block_states), BlockState::Unallocated);
    // A deferred release drains at the end of a tracing pause.
    live.set_state(&mut space.block_states, BlockState::Unmarked);
    space.pending_release.push(live);
    space.release_rc(Pause::RefCount);
    assert_eq!(space.pending_release.len(), 1);
    space.release_rc(Pause::FullTraceFast);
    assert!(space.pending_release.is_empty());
    assert_eq!(live.get_state(&space.block_states), BlockState::Unallocated);
}

#[test]
fn stack_scan_counter_completes_the_set() {
    let mut sched = GCWorkScheduler::new(2);
    assert!(!sched.on_stack_scanned(3));
    assert!(!sched.on_stack_scanned(3));
    assert!(sched.on_stack_scanned(3));
    assert_eq!(sched.scanned_stacks, 0);
    assert_eq!(sched.gc_status, lxr::plan::GcStatus::GcProper);
}

#[test]
fn memory_copy_and_compare_exchange() {
    let mut mem = HeapMemory::new(Address::from_usize(BASE), 64);
    for k in 0..4 {
        mem.store(Address::from_usize(BASE + k * 8), 100 + k);
    }
    mem.copy_words(Address::from_usize(BASE), Address::from_usize(BASE + 128), 4);
    for k in 0..4 {
        assert_eq!(mem.load(Address::from_usize(BASE + 128 + k * 8)), 100 + k);
    }
    let mut t = ByteTable::new(Address::from_usize(BASE), 8, 16);
    assert_eq!(t.compare_exchange(Address::from_usize(BASE + 8), 0, 7), Ok(0));
    assert_eq!(t.compare_exchange(Address::from_usize(BASE + 8), 0, 9), Err(7));
    assert_eq!(t.load(Address::from_usize(BASE + 8)), 7);
    t.store_range(Address::from_usize(BASE), 16, 3);
    assert_eq!(t.load(Address::from_usize(BASE + 120)), 3);
}

#[test]
fn malloc_bookkeeping() {
    let mut ms = MallocSpace::new(1000);
    assert!(!ms.heap_full());
    ms.record_alloc(600);
    ms.record_alloc(600);
    assert!(ms.heap_full());
    let chunk = Address::from_usize(BYTES_IN_CHUNK * 7);
    assert!(!meta_space_mapped(&ms, chunk.add(123)));
    ms.map_meta_space_for_chunk(chunk);
    assert!(meta_space_mapped(&ms, chunk.add(123)));
    assert!(!meta_space_mapped(&ms, Address::from_usize(BYTES_IN_CHUNK * 8)));
}

#[test]
fn promotion_volume_accounting() {
    let mut local = SurvivalRatioPredictorLocal::new();
    local.record_promotion(48);
    local.record_promotion(16);
    let mut global: usize = 100;
    local.sync(&mut global);
    assert_eq!(global, 164);
    assert_eq!(local.promote_vol, 0);
}

#[test]
fn objects_closure_batches_edges() {
    let mut sched = GCWorkScheduler::new(1);
    let mut closure = ObjectsClosure::new();
    for k in 0..10 {
        closure.process_edge(&mut sched, Address::from_usize(BASE + k * 8));
    }
    closure.flush(&mut sched);
    sched.buckets[3].activate();
    let p = sched.buckets[3].poll().unwrap();
    match p {
        lxr::scheduler::WorkPacket::ProcessEdges { edges } => assert_eq!(edges.len(), 10),
        other => panic!("unexpected packet {:?}", other),
    }
    let _ = ObjectReference::null();
}
