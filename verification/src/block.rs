//! Blocks: the 32 KiB allocation and sweep granule.
//!
//! A block's state lives in one side byte with reserved sentinels; a
//! reusable block stores its count of unavailable lines directly in
//! that byte. A second side byte per block carries the defrag-source
//! flag or the hole count.

use vstd::prelude::*;

verus! {

use crate::BYTES_IN_BLOCK;
use crate::address::Address;
use crate::address::ObjectReference;
use crate::line::Line;

broadcast use crate::address::lemma_address_bounds;
use crate::meta::ByteTable;
use crate::rc::RefCounts;

/// Sentinel byte for an unallocated block.
pub const MARK_UNALLOCATED: u8 = 0;
/// Sentinel byte for an allocated but unmarked block.
pub const MARK_UNMARKED: u8 = 255;
/// Sentinel byte for a marked block.
pub const MARK_MARKED: u8 = 254;
/// Sentinel byte for a nursery block.
pub const MARK_NURSERY: u8 = 253;
/// Sentinel byte for a block recycled by a mutator.
pub const MARK_REUSING: u8 = 252;
/// Sentinel byte marking a block as a defrag source.
pub const DEFRAG_SOURCE_STATE: u8 = 255;

/// The allocation state of a block.
#[derive(Copy, Clone, Debug, PartialEq, Eq, Structural)]
pub enum BlockState {
    /// The block is not allocated.
    Unallocated,
    /// The block is a young block.
    Nursery,
    /// The block is allocated but not marked.
    Unmarked,
    /// The block is allocated and marked.
    Marked,
    /// The block is being recycled by a mutator.
    Reusing,
    /// The block is reusable, with the given count of occupied lines.
    Reusable { unavailable_lines: u8 },
}

impl BlockState {
    /// A reusable state must store a line count that is no sentinel.
    pub open spec fn wf(self) -> bool {
        match self {
            BlockState::Reusable { unavailable_lines } => 1 <= unavailable_lines <= 251,
            _ => true,
        }
    }

    /// The side byte encoding a state.
    pub open spec fn spec_encode(self) -> u8 {
        match self {
            BlockState::Unallocated => MARK_UNALLOCATED,
            BlockState::Unmarked => MARK_UNMARKED,
            BlockState::Marked => MARK_MARKED,
            BlockState::Nursery => MARK_NURSERY,
            BlockState::Reusing => MARK_REUSING,
            BlockState::Reusable { unavailable_lines } => unavailable_lines,
        }
    }

    /// The state a side byte decodes to.
    pub open spec fn spec_decode(byte: u8) -> BlockState {
        if byte == MARK_UNALLOCATED {
            BlockState::Unallocated
        } else if byte == MARK_UNMARKED {
            BlockState::Unmarked
        } else if byte == MARK_MARKED {
            BlockState::Marked
        } else if byte == MARK_NURSERY {
            BlockState::Nursery
        } else if byte == MARK_REUSING {
            BlockState::Reusing
        } else {
            BlockState::Reusable { unavailable_lines: byte }
        }
    }

    /// Decode a side byte.
    pub fn from_u8(byte: u8) -> (r: BlockState)
        ensures
            r == BlockState::spec_decode(byte),
    {
        if byte == MARK_UNALLOCATED {
            BlockState::Unallocated
        } else if byte == MARK_UNMARKED {
            BlockState::Unmarked
        } else if byte == MARK_MARKED {
            BlockState::Marked
        } else if byte == MARK_NURSERY {
            BlockState::Nursery
        } else if byte == MARK_REUSING {
            BlockState::Reusing
        } else {
            BlockState::Reusable { unavailable_lines: byte }
        }
    }

    /// Encode a state into its side byte.
    pub fn to_u8(self) -> (r: u8)
        requires
            self.wf(),
        ensures
            r == self.spec_encode(),
    {
        match self {
            BlockState::Unallocated => MARK_UNALLOCATED,
            BlockState::Unmarked => MARK_UNMARKED,
            BlockState::Marked => MARK_MARKED,
            BlockState::Nursery => MARK_NURSERY,
            BlockState::Reusing => MARK_REUSING,
            BlockState::Reusable { unavailable_lines } => unavailable_lines,
        }
    }

    /// Whether the block is reusable.
    pub fn is_reusable(&self) -> (r: bool)
        ensures
            r == (self is Reusable),
    {
        match self {
            BlockState::Reusable { .. } => true,
            _ => false,
        }
    }
}

/// Encoding a well-formed state and decoding the byte gives the state
/// back, and decoding any byte gives a state that encodes to that byte:
/// the side byte loses nothing.
pub proof fn lemma_state_encoding_round_trip(s: BlockState, byte: u8)
    requires
        s.wf(),
    ensures
        BlockState::spec_decode(s.spec_encode()) == s,
        BlockState::spec_decode(byte).spec_encode() == byte,
{
}

/// The start of the block containing a heap position.
pub open spec fn spec_block_start_containing(pos: int) -> int {
    pos / (BYTES_IN_BLOCK as int) * (BYTES_IN_BLOCK as int)
}

/// The containing block of a position inside a span of blocks lies in
/// that span.
pub proof fn lemma_containing_in_space(pos: int, base: int, n: int)
    requires
        base % (BYTES_IN_BLOCK as int) == 0,
        base <= pos,
        pos < base + n * BYTES_IN_BLOCK,
    ensures
        base <= spec_block_start_containing(pos),
        spec_block_start_containing(pos) <= pos,
        spec_block_start_containing(pos) < base + n * BYTES_IN_BLOCK,
        spec_block_start_containing(pos) % (BYTES_IN_BLOCK as int) == 0,
{
    let bb = BYTES_IN_BLOCK as int;
    let s = spec_block_start_containing(pos);
    vstd::arithmetic::div_mod::lemma_fundamental_div_mod(pos, bb);
    vstd::arithmetic::div_mod::lemma_mod_bound(pos, bb);
    vstd::arithmetic::mul::lemma_mul_is_commutative(bb, pos / bb);
    assert(s == pos - pos % bb);
    vstd::arithmetic::div_mod::lemma_mod_multiples_basic(pos / bb, bb);
    vstd::arithmetic::div_mod::lemma_fundamental_div_mod(base, bb);
    vstd::arithmetic::div_mod::lemma_div_is_ordered(base, pos, bb);
    vstd::arithmetic::mul::lemma_mul_inequality(base / bb, pos / bb, bb);
    vstd::arithmetic::mul::lemma_mul_is_commutative(base / bb, bb);
    assert(base == base / bb * bb);
}

/// A reference to one block.
#[derive(Copy, Clone, Debug, PartialEq, Eq, Structural)]
pub struct Block {
    start: Address,
}

impl Block {
    /// The view of a block: its start address.
    pub closed spec fn spec_start(self) -> int {
        self.start.spec_usize()
    }

    /// A block sits on a block boundary.
    pub open spec fn wf(self) -> bool {
        self.spec_start() % (BYTES_IN_BLOCK as int) == 0
    }

    /// Align an address down to a block boundary.
    pub fn align(address: Address) -> (r: Address)
        ensures
            r.spec_usize() % (BYTES_IN_BLOCK as int) == 0,
            address.spec_usize() - BYTES_IN_BLOCK < r.spec_usize() <= address.spec_usize(),
    {
        address.align_down(BYTES_IN_BLOCK)
    }

    /// The block starting at a block-aligned address.
    pub fn from(address: Address) -> (r: Block)
        requires
            address.spec_usize() % (BYTES_IN_BLOCK as int) == 0,
        ensures
            r.wf(),
            r.spec_start() == address.spec_usize(),
    {
        Block { start: address }
    }

    /// The block containing an object.
    pub fn containing(object: ObjectReference) -> (r: Block)
        ensures
            r.wf(),
            object.spec_value() - BYTES_IN_BLOCK < r.spec_start() <= object.spec_value(),
            r.spec_start() == spec_block_start_containing(object.spec_value()),
    {
        Block { start: object.to_address().align_down(BYTES_IN_BLOCK) }
    }

    /// The block's start address.
    pub fn start(&self) -> (r: Address)
        ensures
            r.spec_usize() == self.spec_start(),
    {
        self.start
    }

    /// The block's end address.
    pub fn end(&self) -> (r: Address)
        requires
            self.spec_start() + BYTES_IN_BLOCK <= usize::MAX,
        ensures
            r.spec_usize() == self.spec_start() + BYTES_IN_BLOCK,
    {
        self.start.add(BYTES_IN_BLOCK)
    }

    /// The start address of the chunk containing the block.
    pub fn chunk(&self) -> (r: Address)
        ensures
            r.spec_usize() % 4194304 == 0,
            self.spec_start() - 4194304 < r.spec_usize() <= self.spec_start(),
    {
        self.start.align_down(crate::BYTES_IN_CHUNK)
    }

    /// The block's state, read from the state table.
    pub fn get_state(&self, states: &ByteTable) -> (r: BlockState)
        requires
            states.wf(),
            states.spec_unit() == BYTES_IN_BLOCK,
            states.in_range(self.spec_start()),
        ensures
            r == BlockState::spec_decode(states.spec_at(self.spec_start())),
    {
        BlockState::from_u8(states.load(self.start))
    }

    /// Set the block's state in the state table.
    pub fn set_state(&self, states: &mut ByteTable, state: BlockState)
        requires
            old(states).wf(),
            old(states).spec_unit() == BYTES_IN_BLOCK,
            old(states).in_range(self.spec_start()),
            state.wf(),
        ensures
            final(states).wf(),
            final(states).spec_base() == old(states).spec_base(),
            final(states).spec_unit() == old(states).spec_unit(),
            final(states).spec_bytes() == old(states).spec_bytes().update(
                old(states).spec_index_of(self.spec_start()),
                state.spec_encode(),
            ),
            BlockState::spec_decode(final(states).spec_at(self.spec_start())) == state,
    {
        proof {
            states.lemma_in_bounds(self.spec_start());
        }
        states.store(self.start, state.to_u8());
    }

    /// Whether the block is flagged for defragmentation, read from the
    /// defrag byte table.
    pub fn is_defrag_source(&self, defrag: &ByteTable) -> (r: bool)
        requires
            defrag.wf(),
            defrag.spec_unit() == BYTES_IN_BLOCK,
            defrag.in_range(self.spec_start()),
        ensures
            r == (defrag.spec_at(self.spec_start()) == DEFRAG_SOURCE_STATE),
    {
        defrag.load(self.start) == DEFRAG_SOURCE_STATE
    }

    /// Flag the block for defragmentation, or clear the flag.
    pub fn set_as_defrag_source(&self, defrag: &mut ByteTable, source: bool)
        requires
            old(defrag).wf(),
            old(defrag).spec_unit() == BYTES_IN_BLOCK,
            old(defrag).in_range(self.spec_start()),
        ensures
            final(defrag).wf(),
            final(defrag).spec_base() == old(defrag).spec_base(),
            final(defrag).spec_unit() == old(defrag).spec_unit(),
            final(defrag).spec_bytes() == old(defrag).spec_bytes().update(
                old(defrag).spec_index_of(self.spec_start()),
                if source {
                    DEFRAG_SOURCE_STATE
                } else {
                    0u8
                },
            ),
    {
        let byte: u8 = if source {
            DEFRAG_SOURCE_STATE
        } else {
            0
        };
        defrag.store(self.start, byte);
    }

    /// Record the number of holes in the block's defrag byte. The count
    /// must stay clear of the defrag-source sentinel.
    pub fn set_holes(&self, defrag: &mut ByteTable, holes: usize)
        requires
            old(defrag).wf(),
            old(defrag).spec_unit() == BYTES_IN_BLOCK,
            old(defrag).in_range(self.spec_start()),
            holes < 255,
        ensures
            final(defrag).wf(),
            final(defrag).spec_base() == old(defrag).spec_base(),
            final(defrag).spec_unit() == old(defrag).spec_unit(),
            final(defrag).spec_bytes() == old(defrag).spec_bytes().update(
                old(defrag).spec_index_of(self.spec_start()),
                holes as u8,
            ),
    {
        defrag.store(self.start, holes as u8);
    }

    /// The number of holes recorded for the block; undefined while the
    /// block is flagged as a defrag source.
    pub fn get_holes(&self, defrag: &ByteTable) -> (r: usize)
        requires
            defrag.wf(),
            defrag.spec_unit() == BYTES_IN_BLOCK,
            defrag.in_range(self.spec_start()),
            defrag.spec_at(self.spec_start()) != DEFRAG_SOURCE_STATE,
        ensures
            r == defrag.spec_at(self.spec_start()),
    {
        defrag.load(self.start) as usize
    }

    /// Take the block out of service before releasing its pages.
    pub fn deinit(&self, states: &mut ByteTable)
        requires
            old(states).wf(),
            old(states).spec_unit() == BYTES_IN_BLOCK,
            old(states).in_range(self.spec_start()),
        ensures
            final(states).wf(),
            final(states).spec_base() == old(states).spec_base(),
            final(states).spec_unit() == old(states).spec_unit(),
            final(states).spec_bytes() == old(states).spec_bytes().update(
                old(states).spec_index_of(self.spec_start()),
                MARK_UNALLOCATED,
            ),
            BlockState::spec_decode(final(states).spec_at(self.spec_start()))
                == BlockState::Unallocated,
    {
        self.set_state(states, BlockState::Unallocated);
    }

    /// Initialize a block just handed out: a mutator-recycled block
    /// enters `Reusing`, a copy destination enters `Marked`, and a clean
    /// mutator block enters `Nursery`. Returns whether the caller must
    /// record the block as mutator-recycled.
    pub fn init(&self, states: &mut ByteTable, defrag: &mut ByteTable, copy: bool, reuse: bool)
        -> (recycled: bool)
        requires
            old(states).wf(),
            old(states).spec_unit() == BYTES_IN_BLOCK,
            old(states).in_range(self.spec_start()),
            old(defrag).wf(),
            old(defrag).spec_unit() == BYTES_IN_BLOCK,
            old(defrag).in_range(self.spec_start()),
        ensures
            final(states).wf(),
            final(states).spec_base() == old(states).spec_base(),
            final(states).spec_unit() == old(states).spec_unit(),
            final(states).spec_bytes().len() == old(states).spec_bytes().len(),
            final(defrag).wf(),
            final(defrag).spec_base() == old(defrag).spec_base(),
            final(defrag).spec_unit() == old(defrag).spec_unit(),
            final(defrag).spec_bytes().len() == old(defrag).spec_bytes().len(),
            recycled == (!copy && reuse),
            BlockState::spec_decode(final(states).spec_at(self.spec_start())) == (if !copy && reuse {
                BlockState::Reusing
            } else if copy {
                BlockState::Marked
            } else {
                BlockState::Nursery
            }),
            final(states).spec_bytes() == old(states).spec_bytes().update(
                old(states).spec_index_of(self.spec_start()),
                (if !copy && reuse {
                    MARK_REUSING
                } else if copy {
                    MARK_MARKED
                } else {
                    MARK_NURSERY
                }),
            ),
            !copy && reuse ==> final(defrag).spec_bytes() == old(defrag).spec_bytes(),
            !(!copy && reuse) ==> final(defrag).spec_bytes() == old(defrag).spec_bytes().update(
                old(defrag).spec_index_of(self.spec_start()),
                0u8,
            ),
    {
        if !copy && reuse {
            self.set_state(states, BlockState::Reusing);
            true
        } else if copy {
            self.set_state(states, BlockState::Marked);
            defrag.store(self.start, 0);
            proof {
                defrag.lemma_in_bounds(self.spec_start());
            }
            false
        } else {
            self.set_state(states, BlockState::Nursery);
            defrag.store(self.start, 0);
            proof {
                defrag.lemma_in_bounds(self.spec_start());
            }
            false
        }
    }
}

impl Block {
    /// Flag the block: an object was promoted into it without moving,
    /// so its recycled lines carry mature objects now.
    pub fn set_as_in_place_promoted(&self, promoted: &mut ByteTable)
        requires
            old(promoted).wf(),
            old(promoted).spec_unit() == crate::BYTES_IN_BLOCK,
            old(promoted).in_range(self.spec_start()),
        ensures
            final(promoted).wf(),
            final(promoted).spec_base() == old(promoted).spec_base(),
            final(promoted).spec_unit() == old(promoted).spec_unit(),
            final(promoted).spec_bytes() == old(promoted).spec_bytes().update(
                old(promoted).spec_index_of(self.spec_start()),
                1u8,
            ),
    {
        promoted.store(self.start, 1);
    }

    /// Whether the block was promoted into in place.
    pub fn is_in_place_promoted(&self, promoted: &ByteTable) -> (r: bool)
        requires
            promoted.wf(),
            promoted.spec_unit() == crate::BYTES_IN_BLOCK,
            promoted.in_range(self.spec_start()),
        ensures
            r == (promoted.spec_at(self.spec_start()) == 1),
    {
        promoted.load(self.start) == 1
    }

    /// Whether the block containing an object is flagged for
    /// defragmentation.
    pub fn in_defrag_block(o: ObjectReference, defrag: &ByteTable) -> (r: bool)
        requires
            defrag.wf(),
            defrag.spec_unit() == crate::BYTES_IN_BLOCK,
            defrag.in_range(spec_block_start_containing(o.spec_value())),
        ensures
            r == (defrag.spec_at(spec_block_start_containing(o.spec_value()))
                == DEFRAG_SOURCE_STATE),
    {
        Block::containing(o).is_defrag_source(defrag)
    }

    /// The block's line range: its first line and its exclusive end line.
    pub fn lines(&self) -> (r: (Line, Line))
        requires
            self.wf(),
            self.spec_start() + BYTES_IN_BLOCK <= usize::MAX,
        ensures
            r.0.wf(),
            r.1.wf(),
            r.0.spec_start() == self.spec_start(),
            r.1.spec_start() == self.spec_start() + BYTES_IN_BLOCK,
    {
        proof {
            crate::space::lemma_aligned_coarser(
                self.spec_start(),
                crate::BYTES_IN_LINE as int,
                crate::LINES_IN_BLOCK as int,
            );
            vstd::arithmetic::div_mod::lemma_mod_multiples_vanish(
                crate::LINES_IN_BLOCK as int,
                self.spec_start(),
                crate::BYTES_IN_LINE as int,
            );
        }
        (Line::from(self.start), Line::from(self.start.add(BYTES_IN_BLOCK)))
    }

    /// A copy of the block's line-mark bytes, in line order.
    pub fn line_mark_table(&self, marks: &ByteTable) -> (r: Vec<u8>)
        requires
            marks.wf(),
            marks.spec_unit() == crate::BYTES_IN_LINE,
            marks.in_range(self.spec_start()),
            marks.spec_index_of(self.spec_start()) + crate::LINES_IN_BLOCK
                <= marks.spec_bytes().len(),
        ensures
            r@.len() == crate::LINES_IN_BLOCK,
            forall|i: int|
                0 <= i < crate::LINES_IN_BLOCK ==> r@[i] == marks.spec_bytes()[marks.spec_index_of(
                    self.spec_start(),
                ) + i],
    {
        proof {
            marks.lemma_in_bounds(self.spec_start());
        }
        let i0 = marks.index_of(self.start);
        let cap = marks.len();
        let mut out: Vec<u8> = Vec::new();
        let mut i: usize = 0;
        while i < crate::LINES_IN_BLOCK
            invariant
                i <= crate::LINES_IN_BLOCK,
                out@.len() == i,
                i0 == marks.spec_index_of(self.spec_start()),
                i0 + crate::LINES_IN_BLOCK <= cap,
                cap == marks.spec_bytes().len(),
                marks.wf(),
                forall|j: int| 0 <= j < i ==> out@[j] == marks.spec_bytes()[i0 + j],
            decreases crate::LINES_IN_BLOCK - i,
        {
            let b = marks.load_at(i0 + i);
            out.push(b);
            i = i + 1;
        }
        out
    }

    /// Atomically update the block's state through a pure transition
    /// function: `Ok` carries the previous state when the function
    /// committed a new one, `Err` when it declined.
    pub fn fetch_update_state<F: Fn(BlockState) -> Option<BlockState>>(
        &self,
        states: &mut ByteTable,
        f: F,
    ) -> (r: Result<BlockState, BlockState>)
        requires
            old(states).wf(),
            old(states).spec_unit() == crate::BYTES_IN_BLOCK,
            old(states).in_range(self.spec_start()),
            forall|s: BlockState| #[trigger] f.requires((s,)),
            forall|s: BlockState, ret: Option<BlockState>|
                #[trigger] f.ensures((s,), ret) && ret is Some ==> ret.unwrap().wf(),
        ensures
            final(states).wf(),
            final(states).spec_base() == old(states).spec_base(),
            final(states).spec_unit() == old(states).spec_unit(),
            ({
                let prev = BlockState::spec_decode(old(states).spec_at(self.spec_start()));
                &&& (r is Err ==> r == Err::<BlockState, BlockState>(prev) && f.ensures(
                    (prev,),
                    None,
                ) && final(states).spec_bytes() == old(states).spec_bytes())
                &&& (r is Ok ==> r == Ok::<BlockState, BlockState>(prev) && f.ensures(
                    (prev,),
                    Some(BlockState::spec_decode(final(states).spec_at(self.spec_start()))),
                ) && final(states).spec_bytes() == old(states).spec_bytes().update(
                    old(states).spec_index_of(self.spec_start()),
                    final(states).spec_at(self.spec_start()),
                ))
            }),
    {
        let prev = self.get_state(states);
        let next = f(prev);
        match next {
            Some(new_state) => {
                self.set_state(states, new_state);
                proof {
                    states.lemma_in_bounds(self.spec_start());
                    crate::block::lemma_state_encoding_round_trip(new_state, 0);
                }
                Ok(prev)
            },
            None => Err(prev),
        }
    }

    /// Clear the block's mark byte, leaving it unallocated as at boot.
    pub fn clear_mark_table(&self, states: &mut ByteTable)
        requires
            old(states).wf(),
            old(states).spec_unit() == crate::BYTES_IN_BLOCK,
            old(states).in_range(self.spec_start()),
        ensures
            final(states).wf(),
            final(states).spec_base() == old(states).spec_base(),
            final(states).spec_unit() == old(states).spec_unit(),
            final(states).spec_bytes() == old(states).spec_bytes().update(
                old(states).spec_index_of(self.spec_start()),
                0u8,
            ),
    {
        states.store(self.start, 0);
    }

    /// Clear the reference counts of every word in the block.
    pub fn clear_rc_table(&self, rc: &mut RefCounts)
        requires
            old(rc).wf(),
            old(rc).in_heap_pos(self.spec_start()),
            old(rc).spec_index_of_pos(self.spec_start()) + crate::WORDS_IN_BLOCK <= old(rc).spec_counts().len(),
        ensures
            final(rc).wf(),
            final(rc).spec_base() == old(rc).spec_base(),
            final(rc).spec_counts().len() == old(rc).spec_counts().len(),
            forall|j: int|
                old(rc).spec_index_of_pos(self.spec_start()) <= j < old(rc).spec_index_of_pos(
                    self.spec_start(),
                ) + crate::WORDS_IN_BLOCK ==> final(rc).spec_counts()[j] == 0,
            forall|j: int|
                0 <= j < old(rc).spec_counts().len() && !(old(rc).spec_index_of_pos(
                    self.spec_start(),
                ) <= j < old(rc).spec_index_of_pos(self.spec_start()) + crate::WORDS_IN_BLOCK)
                    ==> final(rc).spec_counts()[j] == old(rc).spec_counts()[j],
    {
        rc.clear_words(self.start, crate::WORDS_IN_BLOCK);
    }

    /// Clear the straddle bit of every line in the block.
    pub fn clear_striddle_table(&self, straddle: &mut ByteTable)
        requires
            old(straddle).wf(),
            old(straddle).spec_unit() == crate::BYTES_IN_LINE,
            old(straddle).in_range(self.spec_start()),
            old(straddle).spec_index_of(self.spec_start()) + crate::LINES_IN_BLOCK <= old(straddle).spec_bytes().len(),
        ensures
            final(straddle).wf(),
            final(straddle).spec_base() == old(straddle).spec_base(),
            final(straddle).spec_unit() == old(straddle).spec_unit(),
            final(straddle).spec_bytes().len() == old(straddle).spec_bytes().len(),
            forall|j: int|
                old(straddle).spec_index_of(self.spec_start()) <= j < old(straddle).spec_index_of(self.spec_start()) + crate::LINES_IN_BLOCK ==> final(straddle).spec_bytes()[j] == 0,
    {
        straddle.store_range(self.start, crate::LINES_IN_BLOCK, 0);
    }

    /// Clear the log bit of every word in the block.
    pub fn clear_log_table(&self, unlog: &mut ByteTable)
        requires
            old(unlog).wf(),
            old(unlog).spec_unit() == 8,
            old(unlog).in_range(self.spec_start()),
            old(unlog).spec_index_of(self.spec_start()) + crate::WORDS_IN_BLOCK <= old(unlog).spec_bytes().len(),
        ensures
            final(unlog).wf(),
            final(unlog).spec_base() == old(unlog).spec_base(),
            final(unlog).spec_unit() == old(unlog).spec_unit(),
            final(unlog).spec_bytes().len() == old(unlog).spec_bytes().len(),
            forall|j: int|
                old(unlog).spec_index_of(self.spec_start()) <= j < old(unlog).spec_index_of(
                    self.spec_start(),
                ) + crate::WORDS_IN_BLOCK ==> final(unlog).spec_bytes()[j] == 0,
            forall|j: int|
                0 <= j < old(unlog).spec_bytes().len() && !(old(unlog).spec_index_of(
                    self.spec_start(),
                ) <= j < old(unlog).spec_index_of(self.spec_start()) + crate::WORDS_IN_BLOCK)
                    ==> final(unlog).spec_bytes()[j] == old(unlog).spec_bytes()[j],
    {
        unlog.store_range(self.start, crate::WORDS_IN_BLOCK, 0);
    }
}

} // verus!
