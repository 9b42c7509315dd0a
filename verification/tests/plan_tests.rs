//! The remaining barrier variants, block transitions, and plan glue.

use lxr::address::{Address, ObjectReference};
use lxr::barrier::{
    Barrier, BarrierSelector, FieldLoggingBarrier, FLBKind, GenFieldLoggingBarrier,
    LXRFieldBarrierSemantics, NoBarrier, ObjectRememberingBarrier, LOGGED_VALUE, UNLOGGED_VALUE,
};
use lxr::block::{Block, BlockState};
use lxr::forwarding;
use lxr::line::Line;
use lxr::memory::HeapMemory;
use lxr::meta::ByteTable;
use lxr::plan::{create_immix_mutator, record_edge_for_validation, FastRCPrepare, Pause};
use lxr::barrier::WriteTarget;
use lxr::rcwork::{ObjectLayout, RCImmixCollectRootEdges};
use lxr::scheduler::{GCWorkScheduler, UnlogEdges, WorkPacket};
use lxr::space::{ImmixSpace, MARKED_STATE};
use lxr::{BYTES_IN_BLOCK, BYTES_IN_LINE, WORDS_IN_BLOCK};

const BASE: usize = 0x1000_0000;

fn obj(at: usize) -> ObjectReference {
    Address::from_usize(at).to_object_reference()
}

#[test]
fn object_barrier_remembers_each_object_once() {
    let mut space = ImmixSpace::new(Address::from_usize(BASE), 2);
    let mut sched = GCWorkScheduler::new(1);
    let mut barrier = ObjectRememberingBarrier::new();
    let o = obj(BASE + 64);
    barrier.enqueue_node(&mut space, &mut sched, o);
    barrier.enqueue_node(&mut space, &mut sched, o);
    assert_eq!(barrier.modbuf.len(), 1);
    barrier.flush(&mut sched);
    assert_eq!(barrier.modbuf.len(), 0);
    sched.buckets[3].activate();
    match sched.buckets[3].poll().unwrap() {
        WorkPacket::ProcessModBuf { objects } => assert_eq!(objects, vec![o]),
        other => panic!("unexpected packet {:?}", other),
    }
}

#[test]
fn generational_barrier_logs_edges_and_objects() {
    let mut space = ImmixSpace::new(Address::from_usize(BASE), 2);
    let mut sched = GCWorkScheduler::new(1);
    let mut barrier = GenFieldLoggingBarrier::new();
    let e = Address::from_usize(BASE + 16);
    barrier.enqueue_edge(&mut space, &mut sched, e);
    barrier.enqueue_edge(&mut space, &mut sched, e);
    assert_eq!(barrier.edges.len(), 1);
    barrier.enqueue_node(&mut space, &mut sched, obj(BASE + 256));
    barrier.flush(&mut sched);
    assert!(barrier.edges.is_empty());
    assert!(barrier.nodes.is_empty());
}

#[test]
fn array_copy_barrier_covers_every_slot() {
    let mut space = ImmixSpace::new(Address::from_usize(BASE), 2);
    let mut mem = HeapMemory::new(Address::from_usize(BASE), 2 * WORDS_IN_BLOCK);
    let mut sched = GCWorkScheduler::new(1);
    let mut barrier = LXRFieldBarrierSemantics::new();
    let dst = Address::from_usize(BASE + 512);
    let values = vec![obj(BASE + 64), obj(BASE + 96), ObjectReference::null()];
    barrier.memory_region_copy(&mut space, &mut mem, &mut sched, dst, &values, false, false);
    for k in 0..3 {
        assert_eq!(space.unlog_bits.load(dst.add(k * 8)), LOGGED_VALUE);
        assert_eq!(mem.load(dst.add(k * 8)), values[k].value());
    }
    assert_eq!(barrier.incs.len(), 3);
    // A slot already logged gets the store alone: the protocol bails
    // per edge without any requirement on the batch.
    barrier.memory_region_copy(
        &mut space,
        &mut mem,
        &mut sched,
        dst,
        &vec![obj(BASE + 96)],
        false,
        false,
    );
    assert_eq!(barrier.incs.len(), 3);
    assert_eq!(mem.load(dst), BASE + 96);
    // Loaded references feed the snapshot buffer.
    barrier.load_reference(&mut sched, obj(BASE + 64), true, true);
    assert_eq!(barrier.refs.len(), 1);
}

/// The clone barrier raises each of the copy's targets once, and the
/// write dispatch routes each reported write to its protocol.
#[test]
fn clone_barrier_and_write_dispatch() {
    let mut space = ImmixSpace::new(Address::from_usize(BASE), 2);
    let mut mem = HeapMemory::new(Address::from_usize(BASE), 2 * WORDS_IN_BLOCK);
    let mut sched = GCWorkScheduler::new(1);
    let mut fb = FieldLoggingBarrier::new(FLBKind::SATB, false, false);

    // A clone whose two fields point at a and b, and a third is null.
    let a = obj(BASE + 64);
    let b2 = obj(BASE + 96);
    let copy = obj(BASE + 1024);
    mem.store(copy.to_address().add(8), a.value());
    mem.store(copy.to_address().add(16), b2.value());
    let dst = ObjectLayout { start: copy, size_words: 4, field_offsets: vec![1, 2, 3] };
    fb.write_target(&mut space, &mut mem, &mut sched, WriteTarget::Clone { dst });
    assert_eq!(space.rc.count(a), 1);
    assert_eq!(space.rc.count(b2), 1);

    // A dispatched field store takes the single-edge protocol.
    let slot = Address::from_usize(BASE + 2048);
    fb.write_target(
        &mut space,
        &mut mem,
        &mut sched,
        WriteTarget::Field { src: obj(BASE), slot, val: a },
    );
    assert_eq!(mem.load(slot), a.value());
    assert_eq!(space.unlog_bits.load(slot), LOGGED_VALUE);

    // A dispatched array copy covers every slot.
    let dst_start = Address::from_usize(BASE + 4096);
    fb.write_target(
        &mut space,
        &mut mem,
        &mut sched,
        WriteTarget::ArrayCopy { dst_start, values: vec![a, b2] },
    );
    assert_eq!(mem.load(dst_start), a.value());
    assert_eq!(mem.load(dst_start.add(8)), b2.value());
}

/// During concurrent marking, edges written from outside the collection
/// set into it join the remembered set; other edges do not.
#[test]
fn remset_records_crossing_edges() {
    let mut space = ImmixSpace::new(Address::from_usize(BASE), 4);
    let source = Block::from(Address::from_usize(BASE + BYTES_IN_BLOCK));
    source.set_as_defrag_source(&mut space.defrag_state, true);
    let outside_edge = Address::from_usize(BASE + 16);
    let inside_target = obj(BASE + BYTES_IN_BLOCK + 64);
    let outside_target = obj(BASE + 2 * BYTES_IN_BLOCK + 64);
    // Crossing edge, marking active: recorded.
    space.record_mature_evac_remset(outside_edge, inside_target, true);
    assert_eq!(space.remset.len(), 1);
    assert_eq!(space.remset[0], outside_edge);
    // Not crossing: ignored.
    space.record_mature_evac_remset(outside_edge, outside_target, true);
    assert_eq!(space.remset.len(), 1);
    // Marking not active: ignored.
    space.record_mature_evac_remset(outside_edge, inside_target, false);
    assert_eq!(space.remset.len(), 1);
}

#[test]
fn fetch_update_backs_the_recycling_decision() {
    let mut space = ImmixSpace::new(Address::from_usize(BASE), 2);
    let block = space.get_clean_block(false).unwrap();
    // The transition the mature sweep uses: any state but reusing
    // becomes unallocated.
    let to_unallocated = |s: BlockState| {
        if s == BlockState::Reusing {
            None
        } else {
            Some(BlockState::Unallocated)
        }
    };
    assert_eq!(
        block.fetch_update_state(&mut space.block_states, to_unallocated),
        Ok(BlockState::Nursery)
    );
    block.set_state(&mut space.block_states, BlockState::Reusing);
    assert_eq!(
        block.fetch_update_state(&mut space.block_states, to_unallocated),
        Err(BlockState::Reusing)
    );
}

#[test]
fn table_clearing_and_defrag_flag() {
    let mut space = ImmixSpace::new(Address::from_usize(BASE), 2);
    let block = Block::from(Address::from_usize(BASE));
    let o = obj(BASE + 8);
    space.rc.inc(o).unwrap();
    assert!(!block.rc_dead(&space));
    block.clear_rc_table(&mut space.rc);
    assert!(block.rc_dead(&space));
    space.unlog_bits.store(Address::from_usize(BASE + 8), LOGGED_VALUE);
    block.clear_log_table(&mut space.unlog_bits);
    assert_eq!(space.unlog_bits.load(Address::from_usize(BASE + 8)), UNLOGGED_VALUE);
    block.clear_striddle_table(&mut space.straddle_lines);
    block.clear_mark_table(&mut space.block_states);
    assert_eq!(block.get_state(&space.block_states), BlockState::Unallocated);
    block.set_as_defrag_source(&mut space.defrag_state, true);
    assert!(Block::in_defrag_block(o, &space.defrag_state));
    block.set_as_defrag_source(&mut space.defrag_state, false);
    assert!(!Block::in_defrag_block(o, &space.defrag_state));
}

#[test]
fn lines_and_implicit_nursery_marking() {
    let mut space = ImmixSpace::new(Address::from_usize(BASE), 2);
    let line = Line::containing(Address::from_usize(BASE + 3 * BYTES_IN_LINE + 17));
    assert_eq!(line.start().as_usize(), BASE + 3 * BYTES_IN_LINE);
    assert_eq!(line.get_index_within_block(), 3);
    assert_eq!(line.forward(2).get_index_within_block(), 5);
    assert_eq!(line.block().start().as_usize(), BASE);
    assert!(line.rc_dead(&space.rc));
    space.rc.inc(obj(BASE + 3 * BYTES_IN_LINE + 16)).unwrap();
    assert!(!line.rc_dead(&space.rc));
    // An object in a nursery block counts as marked without a mark bit.
    let block = space.get_clean_block(false).unwrap();
    let o = block.start().to_object_reference();
    assert!(!space.mark_bit(o));
    assert!(space.is_marked(o));
    assert_eq!(space.mark_state, MARKED_STATE);
}

#[test]
fn unlog_edges_packet_clears_bits() {
    let mut space = ImmixSpace::new(Address::from_usize(BASE), 2);
    let edges = vec![Address::from_usize(BASE + 16), Address::from_usize(BASE + 48)];
    for e in &edges {
        space.unlog_bits.store(*e, LOGGED_VALUE);
    }
    let packet = UnlogEdges::new(edges.clone());
    assert!(matches!(packet, WorkPacket::UnlogEdges { .. }));
    UnlogEdges::do_work(&edges, &mut space);
    for e in &edges {
        assert_eq!(space.unlog_bits.load(*e), UNLOGGED_VALUE);
    }
}

#[test]
fn plan_glue() {
    let mutator = create_immix_mutator(true, false, true);
    assert_eq!(mutator.barrier_selector, BarrierSelector::FieldLoggingBarrier);
    let plain = create_immix_mutator(false, false, false);
    assert_eq!(plain.barrier_selector, BarrierSelector::ObjectBarrier);
    let mut fb = FieldLoggingBarrier::new(FLBKind::IU, false, false);
    assert_eq!(fb.kind, FLBKind::IU);
    let mut sched0 = GCWorkScheduler::new(1);
    fb.flush_to_scheduler(&mut sched0);
    NoBarrier.flush_to_scheduler(&mut sched0);
    assert!(sched0.buckets[0].queue.is_empty());

    let mut space = ImmixSpace::new(Address::from_usize(BASE), 2);
    FastRCPrepare::do_work(&mut space, Pause::FullTraceFast);
    assert_eq!(space.mark_state, MARKED_STATE);

    let mut validation = Vec::new();
    record_edge_for_validation(&mut validation, Address::from_usize(BASE), obj(BASE + 8));
    assert_eq!(validation.len(), 1);

    let mut roots = RCImmixCollectRootEdges::new(vec![Address::from_usize(BASE + 16)]);
    let packet = roots.process_edges().unwrap();
    assert_eq!(packet.incs.len(), 1);
    assert_eq!(packet.kind, lxr::rcwork::EDGE_KIND_ROOT);
    assert!(roots.process_edges().is_none());

    // Forwarding status helpers.
    let mut fwd = ByteTable::new(Address::from_usize(BASE), 8, 2 * WORDS_IN_BLOCK);
    let o = obj(BASE + 128);
    let status = forwarding::attempt_to_forward(&mut fwd, o);
    assert!(!forwarding::state_is_forwarded_or_being_forwarded(status));
    forwarding::clear_forwarding_bits(&mut fwd, o);
    assert!(!forwarding::is_forwarded(&fwd, o));
    assert_eq!(BYTES_IN_BLOCK, 32768);
}
