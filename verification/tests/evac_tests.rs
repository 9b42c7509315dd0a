//! Evacuation: forwarding, the opportunistic copy, and the paths that
//! must never copy.

use lxr::address::{Address, ObjectReference};
use lxr::block::{Block, BlockState};
use lxr::forwarding;
use lxr::memory::HeapMemory;
use lxr::meta::ByteTable;
use lxr::predictor::SurvivalRatioPredictorLocal;
use lxr::rcwork::{ObjectLayout, ProcessIncs, EDGE_KIND_NURSERY, MAX_COPY_SIZE_WORDS};
use lxr::space::ImmixSpace;
use lxr::{BYTES_IN_BLOCK, WORDS_IN_BLOCK};

const BASE: usize = 0x1000_0000;

fn obj(at: usize) -> ObjectReference {
    Address::from_usize(at).to_object_reference()
}

/// Evacuating an object and re-reading through its forwarding pointer
/// yields an object of equal size and equal field-by-field identity.
#[test]
fn forwarded_copy_is_identical() {
    let mut fwd = ByteTable::new(Address::from_usize(BASE), 8, 2 * WORDS_IN_BLOCK);
    let mut mem = HeapMemory::new(Address::from_usize(BASE), 2 * WORDS_IN_BLOCK);
    let o = obj(BASE + 128);
    let to = obj(BASE + BYTES_IN_BLOCK + 128);
    for k in 0..4 {
        mem.store(o.to_address().add(k * 8), 0x40 + k);
    }
    let new_obj = forwarding::forward_object(&mut fwd, &mut mem, o, to, 4);
    assert_eq!(new_obj, to);
    assert!(forwarding::is_forwarded(&fwd, o));
    let read = forwarding::read_forwarding_pointer(&fwd, &mem, o);
    assert_eq!(read.value(), to.value());
    for k in 0..4 {
        assert_eq!(mem.load(to.to_address().add(k * 8)), 0x40 + k);
    }
}

/// Filling a defrag source with small reachable objects and tracing
/// with the copy path moves each: the forwarding pointers point into
/// the copy block, the referring edges are rewritten, the new objects
/// are marked, and the emptied source goes back to the page resource.
#[test]
fn defrag_source_is_evacuated() {
    let mut space = ImmixSpace::new(Address::from_usize(BASE), 4);
    let mut fwd = ByteTable::new(Address::from_usize(BASE), 8, 4 * WORDS_IN_BLOCK);
    let mut mem = HeapMemory::new(Address::from_usize(BASE), 4 * WORDS_IN_BLOCK);
    let mut queue: Vec<ObjectReference> = Vec::new();

    let source = Block::from(Address::from_usize(BASE + BYTES_IN_BLOCK));
    source.set_state(&mut space.block_states, BlockState::Marked);
    source.set_as_defrag_source(&mut space.defrag_state, true);
    let copy_block = BASE + 2 * BYTES_IN_BLOCK;

    // Ten small objects in the source, and one referrer slot each in
    // the non-defrag first block.
    let mut new_addrs = Vec::new();
    for k in 0..10 {
        let o = obj(BASE + BYTES_IN_BLOCK + k * 32);
        let slot = Address::from_usize(BASE + 8 * k * 8 + 16);
        mem.store(slot, o.value());
        mem.store(o.to_address(), 0x1111 + k);
        let copy_to = obj(copy_block + k * 32);
        let r = forwarding::trace_object_with_opportunistic_copy(
            &mut space, &mut fwd, &mut mem, o, 4, copy_to, false, false, &mut queue,
        );
        assert_eq!(r, copy_to);
        // The forwarding pointer leads into the copy block, and the new
        // object carries the mark state.
        let ptr = forwarding::read_forwarding_pointer(&fwd, &mem, o);
        assert!(ptr.value() >= copy_block && ptr.value() < copy_block + BYTES_IN_BLOCK);
        assert!(space.mark_bit(copy_to));
        // The forwarding closure rewrites the referring edge.
        let rewritten = forwarding::forward_edge(&mut space, &fwd, &mut mem, slot, true);
        assert!(rewritten);
        assert_eq!(mem.load(slot), copy_to.value());
        new_addrs.push(ptr.value());
    }
    assert_eq!(queue.len(), 10);

    // The emptied source block is released: marked, then unallocated.
    assert_eq!(source.get_state(&space.block_states), BlockState::Marked);
    space.release_block(source);
    assert_eq!(source.get_state(&space.block_states), BlockState::Unallocated);
    assert_eq!(space.free_blocks.last().map(|b| b.start().as_usize()), Some(BASE + BYTES_IN_BLOCK));
}

/// Mature evacuation through the remembered set transfers the
/// reference count onto the copy and marks it.
#[test]
fn mature_evacuation_transfers_the_count() {
    let mut space = ImmixSpace::new(Address::from_usize(BASE), 4);
    let mut fwd = ByteTable::new(Address::from_usize(BASE), 8, 4 * WORDS_IN_BLOCK);
    let mut mem = HeapMemory::new(Address::from_usize(BASE), 4 * WORDS_IN_BLOCK);
    let o = obj(BASE + 64);
    let to = obj(BASE + BYTES_IN_BLOCK + 64);
    space.rc.inc(o).unwrap();
    space.rc.inc(o).unwrap();
    space.rc.inc(o).unwrap();
    mem.store(o.to_address().add(8), 0xabc);
    let new_obj = forwarding::forward_mature_object(&mut space, &mut fwd, &mut mem, o, to, 4);
    assert_eq!(new_obj, to);
    assert_eq!(space.rc.count(to), 3);
    assert!(space.mark_bit(to));
    assert_eq!(mem.load(to.to_address().add(8)), 0xabc);
    // A second attempt finds the existing copy.
    let again = forwarding::forward_mature_object(&mut space, &mut fwd, &mut mem, o, to, 4);
    assert_eq!(again.value(), to.value());
}

/// A claim that lost finds the existing copy; an already marked object
/// stays put; an exhausted copy reserve pins the object in place.
#[test]
fn opportunistic_copy_fallbacks() {
    let mut space = ImmixSpace::new(Address::from_usize(BASE), 4);
    let mut fwd = ByteTable::new(Address::from_usize(BASE), 8, 4 * WORDS_IN_BLOCK);
    let mut mem = HeapMemory::new(Address::from_usize(BASE), 4 * WORDS_IN_BLOCK);
    let mut queue: Vec<ObjectReference> = Vec::new();
    let block = Block::from(Address::from_usize(BASE));
    block.set_state(&mut space.block_states, BlockState::Marked);

    // Space exhausted: the object is marked in place, its block marked.
    let o = obj(BASE + 64);
    let copy_to = obj(BASE + BYTES_IN_BLOCK);
    let r = forwarding::trace_object_with_opportunistic_copy(
        &mut space, &mut fwd, &mut mem, o, 4, copy_to, false, true, &mut queue,
    );
    assert_eq!(r, o);
    assert!(space.mark_bit(o));
    assert!(!forwarding::is_forwarded(&fwd, o));
    assert_eq!(block.get_state(&space.block_states), BlockState::Marked);
    // Already marked: the claim is released and the object stays.
    let r2 = forwarding::trace_object_with_opportunistic_copy(
        &mut space, &mut fwd, &mut mem, o, 4, copy_to, false, false, &mut queue,
    );
    assert_eq!(r2, o);
    assert!(!forwarding::is_forwarded(&fwd, o));
    assert!(queue.is_empty());
}

/// An oversize or large-object-space object never takes the evacuation
/// path: the count governs its lifetime and it stays in place.
#[test]
fn oversize_objects_are_never_evacuated() {
    let mut space = ImmixSpace::new(Address::from_usize(BASE), 4);
    let mut fwd = ByteTable::new(Address::from_usize(BASE), 8, 4 * WORDS_IN_BLOCK);
    let mut mem = HeapMemory::new(Address::from_usize(BASE), 4 * WORDS_IN_BLOCK);
    let block = Block::from(Address::from_usize(BASE));
    block.set_state(&mut space.block_states, BlockState::Nursery);

    let mut incs = ProcessIncs::new(vec![], EDGE_KIND_NURSERY);
    let mut predictor = SurvivalRatioPredictorLocal::new();
    // A large-object-space object.
    let los = obj(BASE + 1024);
    let layout = ObjectLayout { start: los, size_words: 4, field_offsets: vec![] };
    let copy_to = obj(BASE + BYTES_IN_BLOCK);
    let copy_layout = ObjectLayout { start: copy_to, size_words: 4, field_offsets: vec![] };
    let r = incs.process_inc_and_evacuate(
        &mut space, &mut fwd, &mut mem, &mut predictor, los, true, &layout, copy_to,
        &copy_layout,
    );
    assert_eq!(r, los);
    assert!(!forwarding::is_forwarded(&fwd, los));
    assert_eq!(space.rc.count(los), 1);

    // An oversize object, above the copy limit.
    let big = obj(BASE + 2048);
    let big_layout =
        ObjectLayout { start: big, size_words: MAX_COPY_SIZE_WORDS, field_offsets: vec![] };
    let big_copy = obj(BASE + 2 * BYTES_IN_BLOCK);
    let big_copy_layout =
        ObjectLayout { start: big_copy, size_words: MAX_COPY_SIZE_WORDS, field_offsets: vec![] };
    let r2 = incs.process_inc_and_evacuate(
        &mut space, &mut fwd, &mut mem, &mut predictor, big, false, &big_layout, big_copy,
        &big_copy_layout,
    );
    assert_eq!(r2, big);
    assert!(!forwarding::is_forwarded(&fwd, big));
    assert_eq!(space.rc.count(big), 1);

    // A movable nursery object, by contrast, is copied.
    let young = obj(BASE + 8192);
    let y_layout = ObjectLayout { start: young, size_words: 4, field_offsets: vec![] };
    let y_copy = obj(BASE + 3 * BYTES_IN_BLOCK);
    let y_copy_layout = ObjectLayout { start: y_copy, size_words: 4, field_offsets: vec![] };
    let r3 = incs.process_inc_and_evacuate(
        &mut space, &mut fwd, &mut mem, &mut predictor, young, false, &y_layout, y_copy,
        &y_copy_layout,
    );
    assert_eq!(r3, y_copy);
    assert!(forwarding::is_forwarded(&fwd, young));
    assert_eq!(space.rc.count(y_copy), 1);
}
