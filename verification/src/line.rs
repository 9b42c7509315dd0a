//! Lines: the 256-byte hole-finding granule within a block.
//!
//! Each line carries a cyclic mark-epoch byte in a side table; a line
//! is occupied when its epoch equals the current or the previous
//! collection's state. A second side byte per line records whether an
//! object straddles into the line from below.

use vstd::prelude::*;

verus! {

use crate::BYTES_IN_BLOCK;
use crate::BYTES_IN_LINE;
use crate::WORDS_IN_LINE;
use crate::address::Address;
use crate::block::Block;
use crate::meta::ByteTable;
use crate::rc::RefCounts;

broadcast use crate::address::lemma_address_bounds;

/// The line-mark epoch that block reset restores.
pub const RESET_MARK_STATE: u8 = 1;
/// The largest line-mark epoch before the cycle wraps.
pub const MAX_MARK_STATE: u8 = 127;

/// A reference to one line.
#[derive(Copy, Clone, Debug, PartialEq, Eq, Structural)]
pub struct Line {
    start: Address,
}

impl Line {
    /// The view of a line: its start address.
    pub closed spec fn spec_start(self) -> int {
        self.start.spec_usize()
    }

    /// A line sits on a line boundary.
    pub open spec fn wf(self) -> bool {
        self.spec_start() % (BYTES_IN_LINE as int) == 0
    }

    /// The line starting at a line-aligned address.
    pub fn from(address: Address) -> (r: Line)
        requires
            address.spec_usize() % (BYTES_IN_LINE as int) == 0,
        ensures
            r.wf(),
            r.spec_start() == address.spec_usize(),
    {
        Line { start: address }
    }

    /// The line containing an address.
    pub fn containing(address: Address) -> (r: Line)
        ensures
            r.wf(),
            address.spec_usize() - BYTES_IN_LINE < r.spec_start() <= address.spec_usize(),
    {
        Line { start: address.align_down(BYTES_IN_LINE) }
    }

    /// The line's start address.
    pub fn start(&self) -> (r: Address)
        ensures
            r.spec_usize() == self.spec_start(),
    {
        self.start
    }

    /// The block holding this line.
    pub fn block(&self) -> (r: Block)
        requires
            self.wf(),
        ensures
            r.wf(),
            self.spec_start() - BYTES_IN_BLOCK < r.spec_start() <= self.spec_start(),
    {
        Block::from(Block::align(self.start))
    }

    /// The line's index within its block.
    pub fn get_index_within_block(&self) -> (r: usize)
        requires
            self.wf(),
        ensures
            r == (self.spec_start() % (BYTES_IN_BLOCK as int)) / (BYTES_IN_LINE as int),
            r < crate::LINES_IN_BLOCK,
    {
        proof {
            vstd::arithmetic::div_mod::lemma_mod_bound(self.spec_start(), BYTES_IN_BLOCK as int);
            vstd::arithmetic::div_mod::lemma_mod_mod(self.spec_start(), 256, 128);
            vstd::arithmetic::div_mod::lemma_div_is_ordered(
                self.spec_start() % (BYTES_IN_BLOCK as int),
                BYTES_IN_BLOCK as int - 1,
                BYTES_IN_LINE as int,
            );
        }
        (self.start.as_usize() % BYTES_IN_BLOCK) / BYTES_IN_LINE
    }

    /// The line `count` lines above this one.
    pub fn forward(&self, count: usize) -> (r: Line)
        requires
            self.wf(),
            self.spec_start() + count * BYTES_IN_LINE <= usize::MAX,
        ensures
            r.wf(),
            r.spec_start() == self.spec_start() + count * BYTES_IN_LINE,
    {
        proof {
            vstd::arithmetic::mul::lemma_mul_is_commutative(count as int, BYTES_IN_LINE as int);
            vstd::arithmetic::div_mod::lemma_mod_multiples_vanish(
                count as int,
                self.spec_start(),
                BYTES_IN_LINE as int,
            );
        }
        Line { start: self.start.add(count * BYTES_IN_LINE) }
    }

    /// Whether the line's epoch byte equals the given mark state.
    pub fn is_marked(&self, marks: &ByteTable, state: u8) -> (r: bool)
        requires
            marks.wf(),
            marks.spec_unit() == BYTES_IN_LINE,
            marks.in_range(self.spec_start()),
        ensures
            r == (marks.spec_at(self.spec_start()) == state),
    {
        marks.load(self.start) == state
    }

    /// Stamp the line with the given mark state.
    pub fn mark(&self, marks: &mut ByteTable, state: u8)
        requires
            old(marks).wf(),
            old(marks).spec_unit() == BYTES_IN_LINE,
            old(marks).in_range(self.spec_start()),
        ensures
            final(marks).wf(),
            final(marks).spec_base() == old(marks).spec_base(),
            final(marks).spec_unit() == old(marks).spec_unit(),
            final(marks).spec_bytes() == old(marks).spec_bytes().update(
                old(marks).spec_index_of(self.spec_start()),
                state,
            ),
    {
        marks.store(self.start, state);
    }

    /// Whether every word of the line has a zero reference count.
    pub fn rc_dead(&self, rc: &RefCounts) -> (r: bool)
        requires
            self.wf(),
            rc.wf(),
            rc.in_heap_pos(self.spec_start()),
            rc.spec_index_of_pos(self.spec_start()) + WORDS_IN_LINE <= rc.spec_counts().len(),
        ensures
            r <==> forall|k: int|
                rc.spec_index_of_pos(self.spec_start()) <= k < rc.spec_index_of_pos(
                    self.spec_start(),
                ) + WORDS_IN_LINE ==> rc.spec_counts()[k] == 0,
    {
        rc.words_dead(self.start, WORDS_IN_LINE)
    }
}

} // verus!
