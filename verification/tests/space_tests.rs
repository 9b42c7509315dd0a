//! Hole search and block recycling in the Immix space.

use lxr::address::Address;
use lxr::block::BlockState;
use lxr::line::Line;
use lxr::space::ImmixSpace;
use lxr::{BYTES_IN_BLOCK, BYTES_IN_LINE};

const BASE: usize = 0x1000_0000;

/// Occupancy pattern `UUUUFFFFUUUU...`: the search skips the first free
/// line of the run and returns the next three.
#[test]
fn rc_hole_search_skips_first_free_line() {
    let mut space = ImmixSpace::new(Address::from_usize(BASE), 2);
    // Lines 0..4 used, 4..8 free, 8..128 used; a line is used when any
    // of its words carries a live count.
    for i in (0..4).chain(8..128) {
        let o = Address::from_usize(BASE + i * BYTES_IN_LINE).to_object_reference();
        space.rc.inc(o).unwrap();
    }
    let start = Line::from(Address::from_usize(BASE));
    let hole = space.rc_get_next_available_lines(start);
    let (lo, hi) = hole.expect("a hole must be found");
    assert_eq!(lo.start().as_usize(), BASE + 5 * BYTES_IN_LINE);
    assert_eq!(hi.start().as_usize(), BASE + 8 * BYTES_IN_LINE);
}

#[test]
fn rc_hole_search_reports_exhaustion() {
    let mut space = ImmixSpace::new(Address::from_usize(BASE), 2);
    for i in 0..128 {
        let o = Address::from_usize(BASE + i * BYTES_IN_LINE).to_object_reference();
        space.rc.inc(o).unwrap();
    }
    let start = Line::from(Address::from_usize(BASE));
    assert!(space.rc_get_next_available_lines(start).is_none());
}

/// Mark-based hole search judges lines by the two epoch bytes, with
/// the same conservative one-line skip as the count-based search.
#[test]
fn mark_hole_search_finds_free_run() {
    let mut space = ImmixSpace::new(Address::from_usize(BASE), 2);
    space.line_mark_state = 2;
    space.line_unavail_state = 1;
    for i in (0..4).chain(8..128) {
        space
            .line_marks
            .store(Address::from_usize(BASE + i * BYTES_IN_LINE), 2);
    }
    let start = Line::from(Address::from_usize(BASE));
    // The first line of the free run is conservatively skipped here too.
    let (lo, hi) = space.normal_get_next_available_lines(start).unwrap();
    assert_eq!(lo.start().as_usize(), BASE + 5 * BYTES_IN_LINE);
    assert_eq!(hi.start().as_usize(), BASE + 8 * BYTES_IN_LINE);
}

#[test]
fn clean_and_reusable_block_allocation() {
    let mut space = ImmixSpace::new(Address::from_usize(BASE), 3);
    let b1 = space.get_clean_block(false).unwrap();
    assert_eq!(b1.get_state(&space.block_states), BlockState::Nursery);
    let b2 = space.get_clean_block(true).unwrap();
    assert_eq!(b2.get_state(&space.block_states), BlockState::Marked);
    assert_ne!(b1.start(), b2.start());
    // Release one, and it comes back.
    space.release_block(b2);
    assert_eq!(b2.get_state(&space.block_states), BlockState::Unallocated);
    let b3 = space.get_clean_block(false).unwrap();
    assert_eq!(b3.start(), b2.start());
    // A reusable block is recycled into the reusing state.
    b1.set_state(&mut space.block_states, BlockState::Reusable { unavailable_lines: 9 });
    space.reusable_blocks.push(b1);
    let r = space.get_reusable_block(false).unwrap();
    assert_eq!(r.start(), b1.start());
    assert_eq!(r.get_state(&space.block_states), BlockState::Reusing);
    assert!(space.get_reusable_block(false).is_none());
}

#[test]
fn prepare_cycles_the_line_epoch() {
    let mut space = ImmixSpace::new(Address::from_usize(BASE), 1);
    assert_eq!(space.line_mark_state, 1);
    space.prepare(false);
    assert_eq!(space.line_mark_state, 2);
    space.line_mark_state = 127;
    space.prepare(false);
    assert_eq!(space.line_mark_state, 1);
    space.release();
    assert_eq!(space.line_unavail_state, 1);
    assert!(space.reusable_blocks.is_empty());
}

#[test]
fn marking_is_idempotent_per_object() {
    let mut space = ImmixSpace::new(Address::from_usize(BASE), 1);
    let o = Address::from_usize(BASE + 4 * 8).to_object_reference();
    let mut queue: Vec<lxr::address::ObjectReference> = Vec::new();
    let r1 = space.trace_object_without_moving(o, 4, &mut queue);
    assert_eq!(r1, o);
    assert_eq!(queue.len(), 1);
    // The marked object's line carries the current epoch.
    assert_eq!(
        space.line_marks.load(Address::from_usize(BASE)),
        space.line_mark_state
    );
    let r2 = space.trace_object_without_moving(o, 4, &mut queue);
    assert_eq!(r2, o);
    assert_eq!(queue.len(), 1);
    assert!(space.mark_bit(o));
    assert_eq!(BYTES_IN_BLOCK, 32768);
}
