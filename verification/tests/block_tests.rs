//! Block states, the state byte encoding, and sweeping.

use lxr::address::Address;
use lxr::block::{Block, BlockState};
use lxr::space::ImmixSpace;
use lxr::{BYTES_IN_BLOCK, BYTES_IN_LINE, LINES_IN_BLOCK};

const BASE: usize = 0x1000_0000;

#[test]
fn state_byte_round_trip() {
    let states = [
        BlockState::Unallocated,
        BlockState::Nursery,
        BlockState::Unmarked,
        BlockState::Marked,
        BlockState::Reusing,
        BlockState::Reusable { unavailable_lines: 5 },
    ];
    for s in states {
        assert_eq!(BlockState::from_u8(s.to_u8()), s);
    }
    assert_eq!(BlockState::from_u8(0), BlockState::Unallocated);
    assert_eq!(BlockState::from_u8(255), BlockState::Unmarked);
    assert_eq!(BlockState::from_u8(254), BlockState::Marked);
    assert_eq!(BlockState::from_u8(253), BlockState::Nursery);
    assert_eq!(BlockState::from_u8(252), BlockState::Reusing);
    assert_eq!(
        BlockState::from_u8(7),
        BlockState::Reusable { unavailable_lines: 7 }
    );
    assert!(BlockState::Reusable { unavailable_lines: 1 }.is_reusable());
    assert!(!BlockState::Marked.is_reusable());
}

#[test]
fn block_geometry() {
    let a = Address::from_usize(BASE + BYTES_IN_BLOCK + 100);
    assert_eq!(Block::align(a).as_usize(), BASE + BYTES_IN_BLOCK);
    let b = Block::containing(a.to_object_reference());
    assert_eq!(b.start().as_usize(), BASE + BYTES_IN_BLOCK);
    assert_eq!(b.end().as_usize(), BASE + 2 * BYTES_IN_BLOCK);
    assert_eq!(b.chunk().as_usize(), BASE);
    let (l0, l1) = b.lines();
    assert_eq!(l0.start().as_usize(), BASE + BYTES_IN_BLOCK);
    assert_eq!(l1.start().as_usize(), BASE + 2 * BYTES_IN_BLOCK);
}

/// A partly marked block becomes reusable with the marked-line count in
/// its state byte: the line scan then finds exactly the complement free,
/// and at least one hole is recorded.
#[test]
fn sweep_partly_marked_block_is_reusable() {
    let mut space = ImmixSpace::new(Address::from_usize(BASE), 4);
    let block = space.get_clean_block(false).unwrap();
    let state = 1u8;
    space.line_mark_state = state;
    // Mark lines 0..4 and 8..12: two used runs around one hole, then a
    // trailing hole to the block end.
    for i in (0..4).chain(8..12) {
        let line = block.start().add(i * BYTES_IN_LINE);
        space.line_marks.store(line, state);
    }
    let mut hist = vec![0usize; LINES_IN_BLOCK + 1];
    let released = block.sweep(&mut space, &mut hist, state);
    assert!(!released);
    assert_eq!(
        block.get_state(&space.block_states),
        BlockState::Reusable { unavailable_lines: 8 }
    );
    // Free lines are exactly the complement of the marked count.
    let marks = block.line_mark_table(&space.line_marks);
    let free = marks.iter().filter(|m| **m != state).count();
    assert_eq!(free, LINES_IN_BLOCK - 8);
    // Two holes: lines 4..8 and 12..128.
    assert_eq!(block.get_holes(&space.defrag_state), 2);
    assert_eq!(hist[2], 8);
    assert_eq!(space.reusable_blocks.last().copied(), Some(block));
}

/// A block with no marked line is released: its state byte says
/// unallocated and its pages are back in the free list.
#[test]
fn sweep_unmarked_block_is_released() {
    let mut space = ImmixSpace::new(Address::from_usize(BASE), 4);
    let block = space.get_clean_block(false).unwrap();
    let mut hist = vec![0usize; LINES_IN_BLOCK + 1];
    let released = block.sweep(&mut space, &mut hist, 1);
    assert!(released);
    assert_eq!(block.get_state(&space.block_states), BlockState::Unallocated);
    assert_eq!(space.free_blocks.last().copied(), Some(block));
}

/// A fully marked block is merely unmarked for the next cycle.
#[test]
fn sweep_fully_marked_block_stays() {
    let mut space = ImmixSpace::new(Address::from_usize(BASE), 4);
    let block = space.get_clean_block(false).unwrap();
    let state = 1u8;
    space.line_mark_state = state;
    for i in 0..LINES_IN_BLOCK {
        space.line_marks.store(block.start().add(i * BYTES_IN_LINE), state);
    }
    let mut hist = vec![0usize; LINES_IN_BLOCK + 1];
    assert!(!block.sweep(&mut space, &mut hist, state));
    assert_eq!(block.get_state(&space.block_states), BlockState::Unmarked);
    assert_eq!(block.get_holes(&space.defrag_state), 0);
}

#[test]
fn rc_sweep_mature_releases_dead_blocks() {
    let mut space = ImmixSpace::new(Address::from_usize(BASE), 4);
    let block = space.get_clean_block(false).unwrap();
    block.set_state(&mut space.block_states, BlockState::Unmarked);
    // All counts are zero, the block is not a defrag source: released.
    space.rc_sweep_mature(block);
    assert_eq!(block.get_state(&space.block_states), BlockState::Unallocated);
    // A live mature block in which something died becomes reusable once.
    let block2 = space.get_clean_block(false).unwrap();
    block2.set_state(&mut space.block_states, BlockState::Unmarked);
    let o = block2.start().to_object_reference();
    space.rc.inc(o).unwrap();
    space.rc_sweep_mature(block2);
    assert_eq!(
        block2.get_state(&space.block_states),
        BlockState::Reusable { unavailable_lines: 1 }
    );
    assert_eq!(space.reusable_blocks.last().copied(), Some(block2));
}
