//! The Immix space: block pool, line marks, reference counts and the
//! marking state, with allocation by hole search, marking, and sweeping.

use vstd::prelude::*;

verus! {

use crate::BYTES_IN_BLOCK;
use crate::BYTES_IN_LINE;
use crate::LINES_IN_BLOCK;
use crate::WORDS_IN_BLOCK;
use crate::WORDS_IN_LINE;
use crate::address::Address;
use crate::address::ObjectReference;
use crate::block::Block;
use crate::block::BlockState;
use crate::line::Line;
use crate::meta::ByteTable;
use crate::plan::Pause;
use crate::rc::RefCounts;

broadcast use crate::address::lemma_address_bounds, crate::address::lemma_object_reference_bounds;

/// The object mark byte meaning unmarked since boot.
pub const UNMARKED_STATE: u8 = 0;
/// The object mark byte of the current cycle.
pub const MARKED_STATE: u8 = 1;

/// A span of blocks measured in bytes equals the same span measured in
/// words times the word size.
pub proof fn lemma_block_bytes_are_words(num_blocks: int)
    ensures
        num_blocks * BYTES_IN_BLOCK == (num_blocks * WORDS_IN_BLOCK) * 8,
{
    vstd::arithmetic::mul::lemma_mul_is_associative(num_blocks, WORDS_IN_BLOCK as int, 8);
}

/// A value aligned to a product of units is aligned to each unit.
pub proof fn lemma_aligned_coarser(x: int, a: int, b: int)
    requires
        a > 0,
        b > 0,
        x >= 0,
        x % (a * b) == 0,
    ensures
        x % a == 0,
{
    vstd::arithmetic::mul::lemma_mul_strictly_positive(a, b);
    vstd::arithmetic::div_mod::lemma_fundamental_div_mod(x, a * b);
    let k = x / (a * b);
    assert(x == (a * b) * k);
    assert((a * b) * k == a * (b * k)) by {
        vstd::arithmetic::mul::lemma_mul_is_associative(a, b, k);
    }
    assert((b * k) * a % a == 0) by {
        vstd::arithmetic::div_mod::lemma_mod_multiples_basic(b * k, a);
    }
    vstd::arithmetic::mul::lemma_mul_is_commutative(b * k, a);
}

/// The Immix space. It owns the side tables of the metadata plane, the
/// current mark epochs, and the block lists fed by sweeping.
pub struct ImmixSpace {
    /// The block-aligned start of the space.
    pub base: Address,
    /// How many blocks the space spans.
    pub num_blocks: usize,
    /// Per-block state byte.
    pub block_states: ByteTable,
    /// Per-block defrag byte: the defrag-source flag or the hole count.
    pub defrag_state: ByteTable,
    /// Per-line mark epoch.
    pub line_marks: ByteTable,
    /// Per-line straddle bit: an object from a lower line runs into it.
    pub straddle_lines: ByteTable,
    /// Per-block flag: a nursery block some object was promoted into
    /// without moving.
    pub promoted_in_place: ByteTable,
    /// Per-object reference counts.
    pub rc: RefCounts,
    /// Per-object mark byte.
    pub mark_table: ByteTable,
    /// Per-edge log bit: one means the barrier has logged the edge.
    pub unlog_bits: ByteTable,
    /// Per-edge lock bit serializing edge logging against RC updates.
    pub lock_bits: ByteTable,
    /// The line-mark epoch of the current collection.
    pub line_mark_state: u8,
    /// The line-mark epoch of the previous collection.
    pub line_unavail_state: u8,
    /// The object mark byte that means "marked in this cycle".
    pub mark_state: u8,
    /// Blocks with holes, found by sweeping.
    pub reusable_blocks: Vec<Block>,
    /// Blocks handed back to mutators for recycling.
    pub mutator_recycled_blocks: Vec<Block>,
    /// Mature blocks in which a decrement found a dead object.
    pub possibly_dead_mature_blocks: Vec<Block>,
    /// Blocks whose release is deferred to the end of the pause.
    pub pending_release: Vec<Block>,
    /// Edges from outside the collection set into it, found by the
    /// barrier and the increment workers during concurrent marking.
    pub remset: Vec<Address>,
    /// Blocks returned to the page resource.
    pub free_blocks: Vec<Block>,
    /// Whether the current pause only starts concurrent marking.
    pub initial_mark_pause: bool,
}

impl ImmixSpace {
    /// The numeric start of the space.
    pub open spec fn spec_base(self) -> int {
        self.base.spec_usize()
    }

    /// The numeric end of the space.
    pub open spec fn spec_end(self) -> int {
        self.spec_base() + self.num_blocks * BYTES_IN_BLOCK
    }

    /// Well-formed: every table covers exactly this space at its own
    /// granularity, from the same base.
    pub open spec fn wf(self) -> bool {
        &&& self.spec_base() % (BYTES_IN_BLOCK as int) == 0
        &&& self.spec_base() > 0
        &&& self.spec_end() <= usize::MAX
        &&& self.block_states.wf()
        &&& self.block_states.spec_base() == self.spec_base()
        &&& self.block_states.spec_unit() == BYTES_IN_BLOCK
        &&& self.block_states.spec_bytes().len() == self.num_blocks
        &&& self.defrag_state.wf()
        &&& self.defrag_state.spec_base() == self.spec_base()
        &&& self.defrag_state.spec_unit() == BYTES_IN_BLOCK
        &&& self.defrag_state.spec_bytes().len() == self.num_blocks
        &&& self.line_marks.wf()
        &&& self.line_marks.spec_base() == self.spec_base()
        &&& self.line_marks.spec_unit() == BYTES_IN_LINE
        &&& self.line_marks.spec_bytes().len() == self.num_blocks * LINES_IN_BLOCK
        &&& self.straddle_lines.wf()
        &&& self.straddle_lines.spec_base() == self.spec_base()
        &&& self.straddle_lines.spec_unit() == BYTES_IN_LINE
        &&& self.straddle_lines.spec_bytes().len() == self.num_blocks * LINES_IN_BLOCK
        &&& self.promoted_in_place.wf()
        &&& self.promoted_in_place.spec_base() == self.spec_base()
        &&& self.promoted_in_place.spec_unit() == BYTES_IN_BLOCK
        &&& self.promoted_in_place.spec_bytes().len() == self.num_blocks
        &&& self.rc.wf()
        &&& self.rc.spec_base() == self.spec_base()
        &&& self.rc.spec_counts().len() == self.num_blocks * WORDS_IN_BLOCK
        &&& self.mark_table.wf()
        &&& self.mark_table.spec_base() == self.spec_base()
        &&& self.mark_table.spec_unit() == 8
        &&& self.mark_table.spec_bytes().len() == self.num_blocks * WORDS_IN_BLOCK
        &&& self.unlog_bits.wf()
        &&& self.unlog_bits.spec_base() == self.spec_base()
        &&& self.unlog_bits.spec_unit() == 8
        &&& self.unlog_bits.spec_bytes().len() == self.num_blocks * WORDS_IN_BLOCK
        &&& self.lock_bits.wf()
        &&& self.lock_bits.spec_base() == self.spec_base()
        &&& self.lock_bits.spec_unit() == 8
        &&& self.lock_bits.spec_bytes().len() == self.num_blocks * WORDS_IN_BLOCK
    }

    /// Whether a block lies in this space.
    pub open spec fn in_space_block(self, b: Block) -> bool {
        &&& b.wf()
        &&& self.spec_base() <= b.spec_start()
        &&& b.spec_start() < self.spec_end()
    }

    /// Whether a word-aligned heap position lies in this space.
    pub open spec fn in_space_pos(self, pos: int) -> bool {
        &&& self.spec_base() <= pos
        &&& pos < self.spec_end()
        &&& pos % 8 == 0
    }

    /// Whether an object lies in this space.
    pub open spec fn in_space(self, o: ObjectReference) -> bool {
        self.in_space_pos(o.spec_value())
    }

    /// The index of a block within the space.
    pub open spec fn spec_block_index(self, b: Block) -> int {
        (b.spec_start() - self.spec_base()) / (BYTES_IN_BLOCK as int)
    }

    /// A fresh space over `num_blocks` blocks starting at `base`: every
    /// side table is zeroed, every block is unallocated and sits in the
    /// page resource's free list, and the mark epochs are at their boot
    /// values.
    pub fn new(base: Address, num_blocks: usize) -> (r: ImmixSpace)
        requires
            base.spec_usize() % (BYTES_IN_BLOCK as int) == 0,
            base.spec_usize() > 0,
            base.spec_usize() + num_blocks * BYTES_IN_BLOCK <= usize::MAX,
        ensures
            r.wf(),
            r.spec_free_list_exact(),
            r.spec_base() == base.spec_usize(),
            r.num_blocks == num_blocks,
            r.mark_state == MARKED_STATE,
            r.line_mark_state == crate::line::RESET_MARK_STATE,
            r.line_unavail_state == crate::line::RESET_MARK_STATE,
            forall|k: int|
                0 <= k < num_blocks * WORDS_IN_BLOCK ==> {
                    &&& #[trigger] r.rc.spec_counts()[k] == 0
                    &&& r.mark_table.spec_bytes()[k] == UNMARKED_STATE
                    &&& r.unlog_bits.spec_bytes()[k] == 0
                    &&& r.lock_bits.spec_bytes()[k] == 0
                },
            forall|k: int|
                0 <= k < num_blocks * LINES_IN_BLOCK ==> {
                    &&& #[trigger] r.line_marks.spec_bytes()[k] == 0
                    &&& r.straddle_lines.spec_bytes()[k] == 0
                },
            forall|k: int|
                0 <= k < num_blocks ==> #[trigger] r.promoted_in_place.spec_bytes()[k] == 0,
            r.free_blocks@.len() == num_blocks,
            forall|j: int|
                0 <= j < num_blocks ==> (#[trigger] r.free_blocks@[j]).spec_start()
                    == base.spec_usize() + j * BYTES_IN_BLOCK,
            r.reusable_blocks@.len() == 0,
            r.mutator_recycled_blocks@.len() == 0,
            r.possibly_dead_mature_blocks@.len() == 0,
            r.pending_release@.len() == 0,
            r.remset@.len() == 0,
    {
        let words = num_blocks * WORDS_IN_BLOCK;
        let lines = num_blocks * LINES_IN_BLOCK;
        proof {
            vstd::arithmetic::mul::lemma_mul_is_associative(
                num_blocks as int,
                WORDS_IN_BLOCK as int,
                8,
            );
            vstd::arithmetic::mul::lemma_mul_is_associative(
                num_blocks as int,
                LINES_IN_BLOCK as int,
                BYTES_IN_LINE as int,
            );
            lemma_aligned_coarser(base.spec_usize(), 8, 4096);
            lemma_aligned_coarser(base.spec_usize(), BYTES_IN_LINE as int, LINES_IN_BLOCK as int);
            assert(8 * 4096 == BYTES_IN_BLOCK);
            assert((BYTES_IN_LINE as int) * (LINES_IN_BLOCK as int) == BYTES_IN_BLOCK);
        }
        let mut free_blocks: Vec<Block> = Vec::new();
        let mut i: usize = 0;
        while i < num_blocks
            invariant
                i <= num_blocks,
                base.spec_usize() % (BYTES_IN_BLOCK as int) == 0,
                base.spec_usize() > 0,
                base.spec_usize() + num_blocks * BYTES_IN_BLOCK <= usize::MAX,
                free_blocks@.len() == i,
                forall|j: int|
                    0 <= j < i ==> (#[trigger] free_blocks@[j]).spec_start() == base.spec_usize()
                        + j * BYTES_IN_BLOCK && free_blocks@[j].wf(),
            decreases num_blocks - i,
        {
            proof {
                vstd::arithmetic::mul::lemma_mul_inequality(
                    i as int + 1,
                    num_blocks as int,
                    BYTES_IN_BLOCK as int,
                );
                vstd::arithmetic::mul::lemma_mul_is_distributive_add_other_way(
                    BYTES_IN_BLOCK as int,
                    i as int,
                    1,
                );
                vstd::arithmetic::div_mod::lemma_mod_multiples_vanish(
                    i as int,
                    base.spec_usize(),
                    BYTES_IN_BLOCK as int,
                );
                vstd::arithmetic::mul::lemma_mul_is_commutative(i as int, BYTES_IN_BLOCK as int);
            }
            let block = Block::from(base.add(i * BYTES_IN_BLOCK));
            free_blocks.push(block);
            i = i + 1;
        }
        let r = ImmixSpace {
            base,
            num_blocks,
            block_states: ByteTable::new(base, BYTES_IN_BLOCK, num_blocks),
            defrag_state: ByteTable::new(base, BYTES_IN_BLOCK, num_blocks),
            promoted_in_place: ByteTable::new(base, BYTES_IN_BLOCK, num_blocks),
            line_marks: ByteTable::new(base, BYTES_IN_LINE, lines),
            straddle_lines: ByteTable::new(base, BYTES_IN_LINE, lines),
            rc: RefCounts::new(base, words),
            mark_table: ByteTable::new(base, 8, words),
            unlog_bits: ByteTable::new(base, 8, words),
            lock_bits: ByteTable::new(base, 8, words),
            line_mark_state: crate::line::RESET_MARK_STATE,
            line_unavail_state: crate::line::RESET_MARK_STATE,
            mark_state: MARKED_STATE,
            reusable_blocks: Vec::new(),
            mutator_recycled_blocks: Vec::new(),
            possibly_dead_mature_blocks: Vec::new(),
            pending_release: Vec::new(),
            remset: Vec::new(),
            free_blocks,
            initial_mark_pause: false,
        };
        proof {
            assert forall|i2: int|
                0 <= i2 < r.num_blocks && r.spec_state_of_index(i2)
                    == BlockState::Unallocated implies r.spec_free_contains_index(i2) by {
                assert(r.free_blocks@[i2].spec_start() == base.spec_usize() + i2
                    * BYTES_IN_BLOCK);
                crate::meta::lemma_index_of_multiple(
                    base.spec_usize(),
                    BYTES_IN_BLOCK as int,
                    i2,
                );
                assert(r.spec_block_index(r.free_blocks@[i2]) == i2);
            }
            assert forall|j: int| 0 <= j < r.free_blocks@.len() implies {
                &&& r.in_space_block(#[trigger] r.free_blocks@[j])
                &&& r.spec_state_of_index(r.spec_block_index(r.free_blocks@[j]))
                    == BlockState::Unallocated
            } by {
                crate::meta::lemma_index_of_multiple(base.spec_usize(), BYTES_IN_BLOCK as int, j);
                assert(r.spec_block_index(r.free_blocks@[j]) == j);
                vstd::arithmetic::mul::lemma_mul_strict_inequality(
                    j,
                    num_blocks as int,
                    BYTES_IN_BLOCK as int,
                );
                vstd::arithmetic::mul::lemma_mul_is_commutative(j, BYTES_IN_BLOCK as int);
                vstd::arithmetic::mul::lemma_mul_is_commutative(
                    num_blocks as int,
                    BYTES_IN_BLOCK as int,
                );
            }
            assert forall|j: int, k: int|
                0 <= j < k < r.free_blocks@.len() implies r.spec_block_index(
                #[trigger] r.free_blocks@[j],
            ) != r.spec_block_index(#[trigger] r.free_blocks@[k]) by {
                crate::meta::lemma_index_of_multiple(base.spec_usize(), BYTES_IN_BLOCK as int, j);
                crate::meta::lemma_index_of_multiple(base.spec_usize(), BYTES_IN_BLOCK as int, k);
            }
        }
        r
    }

    /// A word-aligned position in the space falls in range of every
    /// word-granular table.
    pub proof fn lemma_word_tables(self, pos: int)
        requires
            self.wf(),
            self.in_space_pos(pos),
        ensures
            self.mark_table.in_range(pos),
            self.unlog_bits.in_range(pos),
            self.lock_bits.in_range(pos),
            self.rc.in_heap_pos(pos),
    {
        lemma_block_bytes_are_words(self.num_blocks as int);
    }

    /// A block of the space indexes in range of the block tables, and
    /// its lines and words index in range of the line and word tables.
    pub proof fn lemma_block_tables(self, b: Block, i: int)
        requires
            self.wf(),
            self.in_space_block(b),
            0 <= i < LINES_IN_BLOCK,
        ensures
            0 <= self.spec_block_index(b) < self.num_blocks,
            self.spec_base() + self.spec_block_index(b) * BYTES_IN_BLOCK == b.spec_start(),
            self.block_states.in_range(b.spec_start()),
            self.block_states.spec_index_of(b.spec_start()) == self.spec_block_index(b),
            self.defrag_state.in_range(b.spec_start()),
            self.defrag_state.spec_index_of(b.spec_start()) == self.spec_block_index(b),
            self.promoted_in_place.in_range(b.spec_start()),
            self.promoted_in_place.spec_index_of(b.spec_start()) == self.spec_block_index(b),
            self.line_marks.in_range(b.spec_start() + i * BYTES_IN_LINE),
            self.line_marks.spec_index_of(b.spec_start() + i * BYTES_IN_LINE)
                == self.spec_block_index(b) * LINES_IN_BLOCK + i,
            self.straddle_lines.in_range(b.spec_start() + i * BYTES_IN_LINE),
            self.straddle_lines.spec_index_of(b.spec_start() + i * BYTES_IN_LINE)
                == self.spec_block_index(b) * LINES_IN_BLOCK + i,
            self.rc.in_heap_pos(b.spec_start() + i * BYTES_IN_LINE),
            self.rc.spec_index_of_pos(b.spec_start() + i * BYTES_IN_LINE)
                == self.spec_block_index(b) * WORDS_IN_BLOCK + i * WORDS_IN_LINE,
            self.spec_block_index(b) * WORDS_IN_BLOCK + i * WORDS_IN_LINE + WORDS_IN_LINE
                <= self.rc.spec_counts().len(),
            (b.spec_start() + i * BYTES_IN_LINE) % (BYTES_IN_LINE as int) == 0,
            self.unlog_bits.in_range(b.spec_start() + i * BYTES_IN_LINE),
            self.unlog_bits.spec_index_of(b.spec_start() + i * BYTES_IN_LINE)
                == self.spec_block_index(b) * WORDS_IN_BLOCK + i * WORDS_IN_LINE,
    {
        let base = self.spec_base();
        let bb = BYTES_IN_BLOCK as int;
        let bl = BYTES_IN_LINE as int;
        let n = self.num_blocks as int;
        crate::meta::lemma_index_bounds(b.spec_start(), base, bb, n);
        let q = self.spec_block_index(b);
        assert(b.spec_start() == base + q * bb);

        // The line position, as a multiple of the line size above the base.
        let k = q * (LINES_IN_BLOCK as int) + i;
        assert(q * bb == k * bl - i * bl) by {
            vstd::arithmetic::mul::lemma_mul_is_associative(q, LINES_IN_BLOCK as int, bl);
            vstd::arithmetic::mul::lemma_mul_is_distributive_add_other_way(
                bl,
                q * (LINES_IN_BLOCK as int),
                i,
            );
        }
        let p = b.spec_start() + i * bl;
        assert(p == base + k * bl);
        assert(k < n * (LINES_IN_BLOCK as int)) by {
            vstd::arithmetic::mul::lemma_mul_inequality(q + 1, n, LINES_IN_BLOCK as int);
            vstd::arithmetic::mul::lemma_mul_is_distributive_add_other_way(
                LINES_IN_BLOCK as int,
                q,
                1,
            );
            vstd::arithmetic::mul::lemma_mul_is_commutative(q + 1, LINES_IN_BLOCK as int);
            vstd::arithmetic::mul::lemma_mul_is_commutative(n, LINES_IN_BLOCK as int);
        }
        assert(n * (LINES_IN_BLOCK as int) * bl == n * bb) by {
            vstd::arithmetic::mul::lemma_mul_is_associative(n, LINES_IN_BLOCK as int, bl);
        }
        assert(p < base + n * bb) by {
            vstd::arithmetic::mul::lemma_mul_strict_inequality(
                k,
                n * (LINES_IN_BLOCK as int),
                bl,
            );
            vstd::arithmetic::mul::lemma_mul_is_commutative(k, bl);
            vstd::arithmetic::mul::lemma_mul_is_commutative(n * (LINES_IN_BLOCK as int), bl);
        }
        assert(p % bl == 0) by {
            assert(base % bl == 0) by {
                lemma_aligned_coarser(base, bl, LINES_IN_BLOCK as int);
                assert(bl * (LINES_IN_BLOCK as int) == bb);
            }
            vstd::arithmetic::div_mod::lemma_mod_multiples_vanish(k, base, bl);
            vstd::arithmetic::mul::lemma_mul_is_commutative(k, bl);
        }
        assert(self.line_marks.spec_index_of(p) == k) by {
            crate::meta::lemma_index_of_multiple(base, bl, k);
        }

        // The same position, as a multiple of the word size above the base.
        let w = k * (WORDS_IN_LINE as int);
        assert(k * bl == w * 8) by {
            vstd::arithmetic::mul::lemma_mul_is_associative(k, WORDS_IN_LINE as int, 8);
        }
        assert(w == q * (WORDS_IN_BLOCK as int) + i * (WORDS_IN_LINE as int)) by {
            vstd::arithmetic::mul::lemma_mul_is_distributive_add_other_way(
                WORDS_IN_LINE as int,
                q * (LINES_IN_BLOCK as int),
                i,
            );
            vstd::arithmetic::mul::lemma_mul_is_associative(
                q,
                LINES_IN_BLOCK as int,
                WORDS_IN_LINE as int,
            );
        }
        assert(p % 8 == 0) by {
            assert(base % 8 == 0) by {
                lemma_aligned_coarser(base, 8, 4096);
                assert(8 * 4096 == bb);
            }
            vstd::arithmetic::div_mod::lemma_mod_multiples_vanish(w, base, 8);
            vstd::arithmetic::mul::lemma_mul_is_commutative(w, 8);
        }
        assert(self.rc.spec_index_of_pos(p) == w) by {
            crate::meta::lemma_index_of_multiple(base, 8, w);
        }
        assert(n * (WORDS_IN_BLOCK as int) * 8 == n * bb) by {
            vstd::arithmetic::mul::lemma_mul_is_associative(n, WORDS_IN_BLOCK as int, 8);
        }
        assert(w + (WORDS_IN_LINE as int) <= n * (WORDS_IN_BLOCK as int)) by {
            vstd::arithmetic::mul::lemma_mul_inequality(q + 1, n, WORDS_IN_BLOCK as int);
            vstd::arithmetic::mul::lemma_mul_is_distributive_add_other_way(
                WORDS_IN_BLOCK as int,
                q,
                1,
            );
            vstd::arithmetic::mul::lemma_mul_is_commutative(q + 1, WORDS_IN_BLOCK as int);
            vstd::arithmetic::mul::lemma_mul_is_commutative(n, WORDS_IN_BLOCK as int);
        }
        assert(p < base + n * bb ==> self.rc.in_heap_pos(p));
    }

    /// The object mark byte of an object.
    pub fn mark_bit(&self, object: ObjectReference) -> (r: bool)
        requires
            self.wf(),
            self.in_space(object),
        ensures
            r == (self.mark_table.spec_at(object.spec_value()) == self.mark_state),
    {
        proof {
            self.lemma_word_tables(object.spec_value());
        }
        self.mark_table.load(object.to_address()) == self.mark_state
    }

    /// Atomically mark an object: returns whether this call made it
    /// marked, and afterwards the object carries the current mark state.
    pub fn attempt_mark(&mut self, object: ObjectReference) -> (r: bool)
        requires
            old(self).wf(),
            old(self).in_space(object),
        ensures
            final(self).wf(),
            *final(self) == (ImmixSpace { mark_table: final(self).mark_table, ..*old(self) }),
            r == (old(self).mark_table.spec_at(object.spec_value()) != old(self).mark_state),
            final(self).mark_table.spec_bytes() == old(self).mark_table.spec_bytes().update(
                old(self).mark_table.spec_index_of(object.spec_value()),
                old(self).mark_state,
            ),
            final(self).mark_table.spec_at(object.spec_value()) == old(self).mark_state,
    {
        proof {
            self.lemma_word_tables(object.spec_value());
            self.mark_table.lemma_in_bounds(object.spec_value());
        }
        let a = object.to_address();
        let old_value = self.mark_table.load(a);
        if old_value == self.mark_state {
            proof {
                assert(final(self).mark_table.spec_bytes() =~= old(self).mark_table.spec_bytes().update(
                    old(self).mark_table.spec_index_of(object.spec_value()),
                    old(self).mark_state,
                ));
            }
            return false;
        }
        self.mark_table.store(a, self.mark_state);
        true
    }

    /// Whether an object counts as marked: during concurrent marking an
    /// object in a nursery block counts as marked without a mark bit.
    pub fn is_marked(&self, object: ObjectReference) -> (r: bool)
        requires
            self.wf(),
            self.in_space(object),
        ensures
            r == (BlockState::spec_decode(
                self.block_states.spec_at(
                    crate::block::spec_block_start_containing(object.spec_value()),
                ),
            ) == BlockState::Nursery || self.mark_table.spec_at(object.spec_value())
                == self.mark_state),
    {
        let block = Block::containing(object);
        proof {
            crate::block::lemma_containing_in_space(
                object.spec_value(),
                self.spec_base(),
                self.num_blocks as int,
            );
            self.lemma_block_tables(block, 0);
        }
        let state = block.get_state(&self.block_states);
        if matches!(state, BlockState::Nursery) {
            return true;
        }
        self.mark_bit(object)
    }
}

/// How many of the `n` lines starting at index `i0` carry the given
/// mark state.
pub open spec fn count_marked(marks: Seq<u8>, i0: int, n: nat, state: u8) -> int
    decreases n,
{
    if n == 0 {
        0
    } else {
        (if marks[i0] == state {
            1int
        } else {
            0int
        }) + count_marked(marks, i0 + 1, (n - 1) as nat, state)
    }
}

/// How many holes the `n` lines starting at index `i0` form: an
/// unmarked line opens a hole when the line before it was marked, and
/// the scan starts as if a marked line came before.
pub open spec fn count_holes(marks: Seq<u8>, i0: int, n: nat, state: u8, prev_marked: bool) -> int
    decreases n,
{
    if n == 0 {
        0
    } else {
        let m = marks[i0] == state;
        (if !m && prev_marked {
            1int
        } else {
            0int
        }) + count_holes(marks, i0 + 1, (n - 1) as nat, state, m)
    }
}

/// How many of the `n` lines starting at index `i0` are free of the
/// given mark state.
pub open spec fn count_free(marks: Seq<u8>, i0: int, n: nat, state: u8) -> int
    decreases n,
{
    if n == 0 {
        0
    } else {
        (if marks[i0] != state {
            1int
        } else {
            0int
        }) + count_free(marks, i0 + 1, (n - 1) as nat, state)
    }
}

/// A block in the reusable state with `k` unavailable lines shows
/// exactly the complement as free: the marked and the free lines of a
/// range always add up to its length.
pub proof fn lemma_free_lines_are_the_complement(marks: Seq<u8>, i0: int, n: nat, state: u8)
    ensures
        count_marked(marks, i0, n, state) + count_free(marks, i0, n, state) == n,
    decreases n,
{
    if n > 0 {
        lemma_free_lines_are_the_complement(marks, i0 + 1, (n - 1) as nat, state);
    }
}

/// The marked-line count of a range stays between zero and the range
/// length, and the hole count between zero and the marked-line bound.
pub proof fn lemma_count_bounds(marks: Seq<u8>, i0: int, n: nat, state: u8, prev_marked: bool)
    ensures
        0 <= count_marked(marks, i0, n, state) <= n,
        0 <= count_holes(marks, i0, n, state, prev_marked) <= n,
    decreases n,
{
    if n > 0 {
        lemma_count_bounds(marks, i0 + 1, (n - 1) as nat, state, marks[i0] == state);
    }
}

/// A range with an unmarked line has a hole when scanned as if a
/// marked line came before it: a block that is not fully marked always
/// shows at least one hole.
pub proof fn lemma_not_full_has_hole(marks: Seq<u8>, i0: int, n: nat, state: u8)
    requires
        count_marked(marks, i0, n, state) < n,
    ensures
        count_holes(marks, i0, n, state, true) >= 1,
    decreases n,
{
    lemma_count_bounds(marks, i0, n, state, true);
    if marks[i0] == state {
        lemma_not_full_has_hole(marks, i0 + 1, (n - 1) as nat, state);
    } else {
        lemma_count_bounds(marks, i0 + 1, (n - 1) as nat, state, false);
    }
}

impl Block {
    /// Whether every word of the block has a zero reference count.
    pub fn rc_dead(&self, space: &ImmixSpace) -> (r: bool)
        requires
            space.wf(),
            space.in_space_block(*self),
        ensures
            r <==> forall|k: int|
                space.spec_block_index(*self) * WORDS_IN_BLOCK <= k < space.spec_block_index(*self) * WORDS_IN_BLOCK + WORDS_IN_BLOCK ==> space.rc.spec_counts()[k] == 0,
    {
        proof {
            space.lemma_block_tables(*self, 0);
        }
        space.rc.words_dead(self.start(), WORDS_IN_BLOCK)
    }
}

impl ImmixSpace {
    /// Whether the free list holds some block with the given index.
    pub open spec fn spec_free_contains_index(self, i: int) -> bool {
        exists|j: int|
            0 <= j < self.free_blocks@.len() && self.spec_block_index(self.free_blocks@[j]) == i
    }

    /// The decoded state of the block with the given index.
    pub open spec fn spec_state_of_index(self, i: int) -> BlockState {
        BlockState::spec_decode(self.block_states.spec_bytes()[i])
    }

    /// Every page of an unallocated block has been returned: a block's
    /// state byte says `Unallocated` exactly when the block sits in the
    /// page resource's free list, which holds each block at most once.
    pub open spec fn spec_free_list_exact(self) -> bool {
        &&& forall|i: int|
            0 <= i < self.num_blocks && self.spec_state_of_index(i) == BlockState::Unallocated
                ==> self.spec_free_contains_index(i)
        &&& forall|j: int|
            0 <= j < self.free_blocks@.len() ==> {
                &&& self.in_space_block(#[trigger] self.free_blocks@[j])
                &&& self.spec_state_of_index(self.spec_block_index(self.free_blocks@[j]))
                    == BlockState::Unallocated
            }
        &&& forall|j: int, k: int|
            0 <= j < k < self.free_blocks@.len() ==> self.spec_block_index(
                #[trigger] self.free_blocks@[j],
            ) != self.spec_block_index(#[trigger] self.free_blocks@[k])
    }

    /// Release a block: clear its log bits, mark it unallocated, and
    /// hand its pages back to the page resource's free list.
    pub fn release_block(&mut self, block: Block)
        requires
            old(self).wf(),
            old(self).in_space_block(block),
            old(self).spec_free_list_exact(),
            old(self).spec_state_of_index(old(self).spec_block_index(block))
                != BlockState::Unallocated,
        ensures
            final(self).wf(),
            final(self).spec_free_list_exact(),
            *final(self) == (ImmixSpace {
                block_states: final(self).block_states,
                unlog_bits: final(self).unlog_bits,
                free_blocks: final(self).free_blocks,
                ..*old(self)
            }),
            final(self).spec_state_of_index(old(self).spec_block_index(block))
                == BlockState::Unallocated,
            final(self).block_states.spec_bytes() == old(self).block_states.spec_bytes().update(
                old(self).spec_block_index(block),
                crate::block::MARK_UNALLOCATED,
            ),
            final(self).free_blocks@ == old(self).free_blocks@.push(block),
            forall|k: int|
                old(self).spec_block_index(block) * WORDS_IN_BLOCK <= k < old(self).spec_block_index(block) * WORDS_IN_BLOCK + WORDS_IN_BLOCK ==> final(self).unlog_bits.spec_bytes()[k] == 0,
            forall|k: int|
                0 <= k < old(self).unlog_bits.spec_bytes().len() && !(old(self).spec_block_index(
                    block,
                ) * WORDS_IN_BLOCK <= k < old(self).spec_block_index(block) * WORDS_IN_BLOCK
                    + WORDS_IN_BLOCK) ==> final(self).unlog_bits.spec_bytes()[k] == old(self).unlog_bits.spec_bytes()[k],
    {
        proof {
            self.lemma_block_tables(block, 0);
            self.lemma_word_tables(block.spec_start());
            crate::meta::lemma_index_of_multiple(
                self.spec_base(),
                8,
                self.spec_block_index(block) * (WORDS_IN_BLOCK as int),
            );
            assert(self.spec_block_index(block) * (WORDS_IN_BLOCK as int) * 8
                == self.spec_block_index(block) * (BYTES_IN_BLOCK as int)) by {
                vstd::arithmetic::mul::lemma_mul_is_associative(
                    self.spec_block_index(block),
                    WORDS_IN_BLOCK as int,
                    8,
                );
            }
            assert(self.unlog_bits.spec_index_of(block.spec_start())
                == self.spec_block_index(block) * (WORDS_IN_BLOCK as int));
            assert((self.spec_block_index(block) + 1) * (WORDS_IN_BLOCK as int)
                <= self.num_blocks * (WORDS_IN_BLOCK as int)) by {
                vstd::arithmetic::mul::lemma_mul_inequality(
                    self.spec_block_index(block) + 1,
                    self.num_blocks as int,
                    WORDS_IN_BLOCK as int,
                );
            }
            assert((self.spec_block_index(block) + 1) * (WORDS_IN_BLOCK as int)
                == self.spec_block_index(block) * (WORDS_IN_BLOCK as int) + WORDS_IN_BLOCK) by {
                vstd::arithmetic::mul::lemma_mul_is_distributive_add_other_way(
                    WORDS_IN_BLOCK as int,
                    self.spec_block_index(block),
                    1,
                );
            }
        }
        self.unlog_bits.store_range(block.start(), WORDS_IN_BLOCK, 0);
        block.deinit(&mut self.block_states);
        self.free_blocks.push(block);
        proof {
            let bi = old(self).spec_block_index(block);
            assert forall|i: int|
                0 <= i < self.num_blocks && self.spec_state_of_index(i)
                    == BlockState::Unallocated implies self.spec_free_contains_index(i) by {
                if i == bi {
                    assert(self.spec_block_index(self.free_blocks@[self.free_blocks@.len() - 1])
                        == i);
                } else {
                    assert(old(self).spec_free_contains_index(i));
                    let j = choose|j: int|
                        0 <= j < old(self).free_blocks@.len() && old(self).spec_block_index(
                            old(self).free_blocks@[j],
                        ) == i;
                    assert(self.spec_block_index(self.free_blocks@[j]) == i);
                }
            }
        }
    }
}

impl Block {
    /// The index of this block's first line in the line-mark table.
    pub open spec fn spec_first_line(self, space: ImmixSpace) -> int {
        space.spec_block_index(self) * LINES_IN_BLOCK
    }

    /// Sweep this block after a tracing collection. Counts the lines
    /// carrying the current mark state and the holes between them, then:
    /// releases the block if no line is marked; marks it `Unmarked` if
    /// every line is; otherwise makes it `Reusable` with the marked-line
    /// count, pushes it onto the reusable list, records the hole count
    /// in the defrag byte, and adds the marked lines to the histogram
    /// bucket of its hole count. Returns whether the block was released.
    pub fn sweep(
        &self,
        space: &mut ImmixSpace,
        mark_histogram: &mut Vec<usize>,
        line_mark_state: u8,
    ) -> (released: bool)
        requires
            old(space).wf(),
            old(space).in_space_block(*self),
            old(space).spec_free_list_exact(),
            old(space).spec_state_of_index(old(space).spec_block_index(*self))
                != BlockState::Unallocated,
            old(mark_histogram)@.len() == LINES_IN_BLOCK + 1,
            forall|h: int|
                0 <= h < old(mark_histogram)@.len() ==> #[trigger] old(mark_histogram)@[h]
                    <= usize::MAX - LINES_IN_BLOCK,
        ensures
            final(space).wf(),
            final(space).spec_free_list_exact(),
            final(mark_histogram)@.len() == old(mark_histogram)@.len(),
            ({
                let marks = old(space).line_marks.spec_bytes();
                let l0 = self.spec_first_line(*old(space));
                let marked = count_marked(marks, l0, LINES_IN_BLOCK as nat, line_mark_state);
                let holes = count_holes(marks, l0, LINES_IN_BLOCK as nat, line_mark_state, true);
                &&& released == (marked == 0)
                &&& final(space).line_marks == old(space).line_marks
                &&& (marked == 0 ==> {
                    &&& *final(space) == (ImmixSpace {
                        block_states: final(space).block_states,
                        unlog_bits: final(space).unlog_bits,
                        free_blocks: final(space).free_blocks,
                        ..*old(space)
                    })
                    &&& final(space).spec_state_of_index(old(space).spec_block_index(*self))
                        == BlockState::Unallocated
                    &&& final(space).free_blocks@ == old(space).free_blocks@.push(*self)
                    &&& final(mark_histogram)@ == old(mark_histogram)@
                })
                &&& (marked != 0 ==> {
                    &&& *final(space) == (ImmixSpace {
                        block_states: final(space).block_states,
                        defrag_state: final(space).defrag_state,
                        reusable_blocks: final(space).reusable_blocks,
                        ..*old(space)
                    })
                    &&& (marked == LINES_IN_BLOCK ==> {
                        &&& final(space).spec_state_of_index(old(space).spec_block_index(*self))
                            == BlockState::Unmarked
                        &&& final(space).reusable_blocks@ == old(space).reusable_blocks@
                    })
                    &&& (marked < LINES_IN_BLOCK ==> {
                        &&& final(space).spec_state_of_index(old(space).spec_block_index(*self))
                            == (BlockState::Reusable { unavailable_lines: marked as u8 })
                        &&& final(space).reusable_blocks@ == old(space).reusable_blocks@.push(*self)
                        &&& holes >= 1
                    })
                    &&& final(space).defrag_state.spec_bytes() == old(space).defrag_state.spec_bytes().update(
                        old(space).spec_block_index(*self),
                        holes as u8,
                    )
                    &&& final(mark_histogram)@ == old(mark_histogram)@.update(
                        holes,
                        (old(mark_histogram)@[holes] + marked) as usize,
                    )
                })
            }),
    {
        let ghost marks = space.line_marks.spec_bytes();
        let ghost l0 = self.spec_first_line(*space);
        let ghost st = line_mark_state;
        let mut marked_lines: usize = 0;
        let mut holes: usize = 0;
        let mut prev_line_is_marked: bool = true;
        let mut i: usize = 0;
        proof {
            lemma_count_bounds(marks, l0, LINES_IN_BLOCK as nat, st, true);
        }
        while i < LINES_IN_BLOCK
            invariant
                space == old(space),
                i <= LINES_IN_BLOCK,
                marked_lines <= i,
                holes <= i,
                marks == space.line_marks.spec_bytes(),
                l0 == self.spec_first_line(*space),
                st == line_mark_state,
                space.wf(),
                space.in_space_block(*self),
                marked_lines + count_marked(marks, l0 + i, (LINES_IN_BLOCK - i) as nat, st)
                    == count_marked(marks, l0, LINES_IN_BLOCK as nat, st),
                holes + count_holes(
                    marks,
                    l0 + i,
                    (LINES_IN_BLOCK - i) as nat,
                    st,
                    prev_line_is_marked,
                ) == count_holes(marks, l0, LINES_IN_BLOCK as nat, st, true),
            decreases LINES_IN_BLOCK - i,
        {
            proof {
                space.lemma_block_tables(*self, i as int);
            }
            let line_addr = self.start().add(i * crate::BYTES_IN_LINE);
            let line_is_marked = space.line_marks.load(line_addr) == line_mark_state;
            if line_is_marked {
                marked_lines = marked_lines + 1;
                prev_line_is_marked = true;
            } else {
                if prev_line_is_marked {
                    holes = holes + 1;
                }
                prev_line_is_marked = false;
            }
            i = i + 1;
        }
        proof {
            lemma_count_bounds(marks, l0, LINES_IN_BLOCK as nat, st, true);
        }
        if marked_lines == 0 {
            space.release_block(*self);
            true
        } else {
            if marked_lines != LINES_IN_BLOCK {
                proof {
                    lemma_not_full_has_hole(marks, l0, LINES_IN_BLOCK as nat, st);
                }
                self.set_state(
                    &mut space.block_states,
                    BlockState::Reusable { unavailable_lines: marked_lines as u8 },
                );
                space.reusable_blocks.push(*self);
            } else {
                self.set_state(&mut space.block_states, BlockState::Unmarked);
            }
            let bucket = mark_histogram[holes];
            mark_histogram.set(holes, bucket + marked_lines);
            proof {
                space.lemma_block_tables(*self, 0);
            }
            self.set_holes(&mut space.defrag_state, holes);
            proof {
                let bi = old(space).spec_block_index(*self);
                assert forall|i: int|
                    0 <= i < space.num_blocks && space.spec_state_of_index(i)
                        == BlockState::Unallocated implies space.spec_free_contains_index(i) by {
                    assert(i != bi);
                    assert(space.spec_state_of_index(i) == old(space).spec_state_of_index(i));
                    assert(old(space).spec_free_contains_index(i));
                    let j = choose|j: int|
                        0 <= j < old(space).free_blocks@.len() && old(space).spec_block_index(
                            old(space).free_blocks@[j],
                        ) == i;
                    assert(space.spec_block_index(space.free_blocks@[j]) == i);
                }
                assert forall|j: int| 0 <= j < space.free_blocks@.len() implies {
                    &&& space.in_space_block(#[trigger] space.free_blocks@[j])
                    &&& space.spec_state_of_index(space.spec_block_index(space.free_blocks@[j]))
                        == BlockState::Unallocated
                } by {
                    assert(old(space).in_space_block(old(space).free_blocks@[j]));
                    assert(old(space).spec_state_of_index(
                        old(space).spec_block_index(old(space).free_blocks@[j]),
                    ) == BlockState::Unallocated);
                    assert(old(space).spec_block_index(old(space).free_blocks@[j]) != bi);
                }
            }
            false
        }
    }
}

/// The least index in `[i, limit)` satisfying `p`, or `limit` if none.
pub open spec fn spec_find_from(p: spec_fn(int) -> bool, i: int, limit: int) -> int
    decreases limit - i,
{
    if i >= limit {
        limit
    } else if p(i) {
        i
    } else {
        spec_find_from(p, i + 1, limit)
    }
}

/// The found index lies in `[i, limit]`, satisfies `p` unless it is
/// `limit`, and nothing before it satisfies `p`.
pub proof fn lemma_find_from(p: spec_fn(int) -> bool, i: int, limit: int)
    requires
        i <= limit,
    ensures
        i <= spec_find_from(p, i, limit) <= limit,
        spec_find_from(p, i, limit) < limit ==> p(spec_find_from(p, i, limit)),
        forall|j: int| i <= j < spec_find_from(p, i, limit) ==> !#[trigger] p(j),
    decreases limit - i,
{
    if i < limit && !p(i) {
        lemma_find_from(p, i + 1, limit);
    }
}

impl ImmixSpace {
    /// The block index of the block containing a heap position.
    pub open spec fn spec_block_index_of_pos(self, pos: int) -> int {
        (pos - self.spec_base()) / (BYTES_IN_BLOCK as int)
    }

    /// A position indexes into the same block as the start of its
    /// containing block.
    pub proof fn lemma_block_index_of_inner(self, pos: int)
        requires
            self.wf(),
            self.spec_base() <= pos,
        ensures
            self.spec_block_index_of_pos(pos) == (crate::block::spec_block_start_containing(pos)
                - self.spec_base()) / (BYTES_IN_BLOCK as int),
    {
        let bb = BYTES_IN_BLOCK as int;
        let base = self.spec_base();
        let d = pos - base;
        let m = base / bb;
        assert(base == m * bb) by {
            vstd::arithmetic::div_mod::lemma_fundamental_div_mod(base, bb);
            vstd::arithmetic::mul::lemma_mul_is_commutative(bb, m);
        }
        assert(pos / bb == d / bb + m) by {
            vstd::arithmetic::div_mod::lemma_hoist_over_denominator(d, m, bb as nat);
        }
        assert(pos / bb * bb == d / bb * bb + m * bb) by {
            vstd::arithmetic::mul::lemma_mul_is_distributive_add_other_way(bb, d / bb, m);
        }
        assert((pos / bb * bb - base) / bb == d / bb) by {
            vstd::arithmetic::mul::lemma_mul_is_commutative(d / bb, bb);
            vstd::arithmetic::div_mod::lemma_div_multiples_vanish(d / bb, bb);
        }
    }

    /// The word index where line `i` of the block with index `q` begins.
    pub open spec fn spec_line_words_start(self, q: int, i: int) -> int {
        q * WORDS_IN_BLOCK + i * WORDS_IN_LINE
    }

    /// Whether line `i` of the block with index `q` holds only dead
    /// words: every word of the line has a zero reference count.
    pub open spec fn spec_line_rc_dead(self, q: int, i: int) -> bool {
        forall|k: int|
            self.spec_line_words_start(q, i) <= k < self.spec_line_words_start(q, i)
                + WORDS_IN_LINE ==> self.rc.spec_counts()[k] == 0
    }

    /// Whether line `i` of the block with index `q` is free for
    /// recycling: every word's count is zero and no object from a lower
    /// line straddles into it.
    pub open spec fn spec_line_free_rc(self, q: int, i: int) -> bool {
        &&& self.spec_line_rc_dead(q, i)
        &&& self.straddle_lines.spec_bytes()[q * LINES_IN_BLOCK + i] == 0
    }

    /// The free-for-recycling predicate over line indices of block `q`.
    pub open spec fn spec_free_lines_q(self, q: int) -> spec_fn(int) -> bool {
        |i: int| self.spec_line_free_rc(q, i)
    }

    /// The complement: line indices of block `q` holding a live count
    /// or a straddling object's tail.
    pub open spec fn spec_occupied_lines_q(self, q: int) -> spec_fn(int) -> bool {
        |i: int| !self.spec_line_free_rc(q, i)
    }

    /// The least free-for-recycling line of `b` at or above `from`.
    fn find_free_line(&self, b: Block, from: usize) -> (r: usize)
        requires
            self.wf(),
            self.in_space_block(b),
            from <= LINES_IN_BLOCK,
        ensures
            r == spec_find_from(
                self.spec_free_lines_q(self.spec_block_index(b)),
                from as int,
                LINES_IN_BLOCK as int,
            ),
            from <= r <= LINES_IN_BLOCK,
    {
        let mut i: usize = from;
        while i < LINES_IN_BLOCK
            invariant
                from <= i <= LINES_IN_BLOCK,
                self.wf(),
                self.in_space_block(b),
                spec_find_from(
                    self.spec_free_lines_q(self.spec_block_index(b)),
                    from as int,
                    LINES_IN_BLOCK as int,
                ) == spec_find_from(
                    self.spec_free_lines_q(self.spec_block_index(b)),
                    i as int,
                    LINES_IN_BLOCK as int,
                ),
            decreases LINES_IN_BLOCK - i,
        {
            proof {
                self.lemma_block_tables(b, i as int);
            }
            let line_addr = b.start().add(i * BYTES_IN_LINE);
            if self.rc.words_dead(line_addr, WORDS_IN_LINE) && self.straddle_lines.load(line_addr)
                == 0 {
                proof {
                    assert((self.spec_free_lines_q(self.spec_block_index(b)))(i as int));
                }
                return i;
            }
            proof {
                assert(!(self.spec_free_lines_q(self.spec_block_index(b)))(i as int));
            }
            i = i + 1;
        }
        i
    }

    /// The least occupied line of `b` at or above `from`.
    fn find_occupied_line(&self, b: Block, from: usize) -> (r: usize)
        requires
            self.wf(),
            self.in_space_block(b),
            from <= LINES_IN_BLOCK,
        ensures
            r == spec_find_from(
                self.spec_occupied_lines_q(self.spec_block_index(b)),
                from as int,
                LINES_IN_BLOCK as int,
            ),
            from <= r <= LINES_IN_BLOCK,
    {
        let mut i: usize = from;
        while i < LINES_IN_BLOCK
            invariant
                from <= i <= LINES_IN_BLOCK,
                self.wf(),
                self.in_space_block(b),
                spec_find_from(
                    self.spec_occupied_lines_q(self.spec_block_index(b)),
                    from as int,
                    LINES_IN_BLOCK as int,
                ) == spec_find_from(
                    self.spec_occupied_lines_q(self.spec_block_index(b)),
                    i as int,
                    LINES_IN_BLOCK as int,
                ),
            decreases LINES_IN_BLOCK - i,
        {
            proof {
                self.lemma_block_tables(b, i as int);
            }
            let line_addr = b.start().add(i * BYTES_IN_LINE);
            if !(self.rc.words_dead(line_addr, WORDS_IN_LINE) && self.straddle_lines.load(
                line_addr,
            ) == 0) {
                proof {
                    assert((self.spec_occupied_lines_q(self.spec_block_index(b)))(i as int));
                }
                return i;
            }
            proof {
                assert(!(self.spec_occupied_lines_q(self.spec_block_index(b)))(i as int));
            }
            i = i + 1;
        }
        i
    }

    /// Search the block holding `search_start` for the next free run of
    /// lines, judging lines by their reference counts and straddle
    /// bits. The first line of a free run is conservatively skipped,
    /// to absorb an object
    /// straddling out of the used region before it. The log bits of a
    /// returned run are cleared before it is handed out. Returns the run
    /// as a start line and an exclusive end line.
    #[verifier::rlimit(100)]
    #[verifier::spinoff_prover]
    pub fn rc_get_next_available_lines(&mut self, search_start: Line) -> (r: Option<(Line, Line)>)
        requires
            old(self).wf(),
            old(self).in_space_pos(search_start.spec_start()),
            search_start.wf(),
        ensures
            final(self).wf(),
            *final(self) == (ImmixSpace { unlog_bits: final(self).unlog_bits, ..*old(self) }),
            ({
                let q = old(self).spec_block_index_of_pos(search_start.spec_start());
                let s0 = (search_start.spec_start() % (BYTES_IN_BLOCK as int)) / (
                BYTES_IN_LINE as int);
                let free = old(self).spec_free_lines_q(q);
                let occupied = old(self).spec_occupied_lines_q(q);
                let st = spec_find_from(free, s0, LINES_IN_BLOCK as int) + 1;
                let en = spec_find_from(occupied, st, LINES_IN_BLOCK as int);
                let bs = old(self).spec_base() + q * BYTES_IN_BLOCK;
                &&& (r is Some <==> (st < LINES_IN_BLOCK && free(st)))
                &&& (r is None ==> final(self).unlog_bits == old(self).unlog_bits)
                &&& (r is Some ==> {
                    &&& en > st
                    &&& r.unwrap().0.wf()
                    &&& r.unwrap().1.wf()
                    &&& r.unwrap().0.spec_start() == bs + st * BYTES_IN_LINE
                    &&& r.unwrap().1.spec_start() == bs + en * BYTES_IN_LINE
                    &&& forall|k: int|
                        q * WORDS_IN_BLOCK + st * WORDS_IN_LINE <= k < q * WORDS_IN_BLOCK + en
                            * WORDS_IN_LINE ==> final(self).unlog_bits.spec_bytes()[k] == 0
                    &&& forall|k: int|
                        0 <= k < old(self).unlog_bits.spec_bytes().len() && !(q * WORDS_IN_BLOCK
                            + st * WORDS_IN_LINE <= k < q * WORDS_IN_BLOCK + en * WORDS_IN_LINE)
                            ==> final(self).unlog_bits.spec_bytes()[k] == old(self).unlog_bits.spec_bytes()[k]
                })
            }),
    {
        let b = search_start.block();
        proof {
            crate::block::lemma_containing_in_space(
                search_start.spec_start(),
                self.spec_base(),
                self.num_blocks as int,
            );
            self.lemma_block_index_of_inner(search_start.spec_start());
            assert(self.spec_block_index(b) == self.spec_block_index_of_pos(
                search_start.spec_start(),
            ));
        }
        let ghost q = self.spec_block_index(b);
        let s0 = search_start.get_index_within_block();
        let f = self.find_free_line(b, s0);
        proof {
            lemma_find_from(self.spec_free_lines_q(q), s0 as int, LINES_IN_BLOCK as int);
        }
        if f + 1 >= LINES_IN_BLOCK {
            return None;
        }
        let st = f + 1;
        let en = self.find_occupied_line(b, st);
        proof {
            lemma_find_from(self.spec_occupied_lines_q(q), st as int, LINES_IN_BLOCK as int);
        }
        if en == st {
            proof {
                assert((self.spec_occupied_lines_q(q))(st as int));
            }
            return None;
        }
        proof {
            assert(!(self.spec_occupied_lines_q(q))(st as int));
            self.lemma_block_tables(b, st as int);
            self.lemma_block_tables(b, en as int - 1);
            assert((en - st) * (WORDS_IN_LINE as int) == en * (WORDS_IN_LINE as int) - st * (
            WORDS_IN_LINE as int)) by {
                vstd::arithmetic::mul::lemma_mul_is_distributive_sub_other_way(
                    WORDS_IN_LINE as int,
                    en as int,
                    st as int,
                );
            }
        }
        let start_addr = b.start().add(st * BYTES_IN_LINE);
        self.unlog_bits.store_range(start_addr, (en - st) * WORDS_IN_LINE, 0);
        let end_addr = b.start().add(en * BYTES_IN_LINE);
        Some((Line::from(start_addr), Line::from(end_addr)))
    }
}

/// The free-list invariant only reads the base, the block count, the
/// state table and the free list: it carries over to any state that
/// keeps those four.
pub proof fn lemma_free_exact_congruence(pre: ImmixSpace, post: ImmixSpace)
    requires
        pre.spec_free_list_exact(),
        post.free_blocks == pre.free_blocks,
        post.block_states == pre.block_states,
        post.base == pre.base,
        post.num_blocks == pre.num_blocks,
    ensures
        post.spec_free_list_exact(),
{
    assert forall|i: int|
        0 <= i < post.num_blocks && post.spec_state_of_index(i)
            == BlockState::Unallocated implies post.spec_free_contains_index(i) by {
        assert(pre.spec_free_contains_index(i));
        let j = choose|j: int|
            0 <= j < pre.free_blocks@.len() && pre.spec_block_index(pre.free_blocks@[j]) == i;
        assert(post.spec_block_index(post.free_blocks@[j]) == i);
    }
    assert forall|j: int| 0 <= j < post.free_blocks@.len() implies {
        &&& post.in_space_block(#[trigger] post.free_blocks@[j])
        &&& post.spec_state_of_index(post.spec_block_index(post.free_blocks@[j]))
            == BlockState::Unallocated
    } by {
        assert(pre.in_space_block(pre.free_blocks@[j]));
    }
    assert forall|j: int, k: int|
        0 <= j < k < post.free_blocks@.len() implies post.spec_block_index(
        #[trigger] post.free_blocks@[j],
    ) != post.spec_block_index(#[trigger] post.free_blocks@[k]) by {
        assert(pre.spec_block_index(pre.free_blocks@[j]) != pre.spec_block_index(
            pre.free_blocks@[k],
        ));
    }
}

/// Changing one block's state byte to anything but `Unallocated`
/// keeps the free list exact, provided the block was not unallocated
/// before and the free list itself did not move.
pub proof fn lemma_free_exact_after_restate(pre: ImmixSpace, post: ImmixSpace, bi: int)
    requires
        pre.spec_free_list_exact(),
        post.free_blocks == pre.free_blocks,
        post.num_blocks == pre.num_blocks,
        post.spec_base() == pre.spec_base(),
        0 <= bi < pre.num_blocks,
        forall|i: int|
            0 <= i < pre.num_blocks && i != bi ==> post.spec_state_of_index(i)
                == pre.spec_state_of_index(i),
        pre.spec_state_of_index(bi) != BlockState::Unallocated,
        post.spec_state_of_index(bi) != BlockState::Unallocated,
    ensures
        post.spec_free_list_exact(),
{
    assert forall|i: int|
        0 <= i < post.num_blocks && post.spec_state_of_index(i)
            == BlockState::Unallocated implies post.spec_free_contains_index(i) by {
        assert(i != bi);
        assert(pre.spec_free_contains_index(i));
        let j = choose|j: int|
            0 <= j < pre.free_blocks@.len() && pre.spec_block_index(pre.free_blocks@[j]) == i;
        assert(post.spec_block_index(post.free_blocks@[j]) == i);
    }
    assert forall|j: int| 0 <= j < post.free_blocks@.len() implies {
        &&& post.in_space_block(#[trigger] post.free_blocks@[j])
        &&& post.spec_state_of_index(post.spec_block_index(post.free_blocks@[j]))
            == BlockState::Unallocated
    } by {
        assert(pre.in_space_block(pre.free_blocks@[j]));
        assert(pre.spec_state_of_index(pre.spec_block_index(pre.free_blocks@[j]))
            == BlockState::Unallocated);
        assert(pre.spec_block_index(pre.free_blocks@[j]) != bi);
    }
}

impl ImmixSpace {
    /// Every block on the given list lies in the space with its pages
    /// still held, so it may be released later.
    pub open spec fn spec_blocks_live(self, list: Seq<Block>) -> bool {
        forall|j: int|
            0 <= j < list.len() ==> {
                &&& self.in_space_block(#[trigger] list[j])
                &&& self.spec_state_of_index(self.spec_block_index(list[j]))
                    != BlockState::Unallocated
            }
    }

    /// Sweep a nursery block under reference counting: the block is
    /// released exactly when every word of it is count-dead.
    pub fn rc_sweep_nursery(&mut self, block: Block) -> (released: bool)
        requires
            old(self).wf(),
            old(self).in_space_block(block),
            old(self).spec_free_list_exact(),
            old(self).spec_state_of_index(old(self).spec_block_index(block))
                != BlockState::Unallocated,
        ensures
            final(self).wf(),
            final(self).spec_free_list_exact(),
            released <==> (forall|k: int|
                old(self).spec_block_index(block) * WORDS_IN_BLOCK <= k < old(self).spec_block_index(block) * WORDS_IN_BLOCK + WORDS_IN_BLOCK ==> old(self).rc.spec_counts()[k] == 0),
            !released ==> *final(self) == *old(self),
            released ==> {
                &&& *final(self) == (ImmixSpace {
                    block_states: final(self).block_states,
                    unlog_bits: final(self).unlog_bits,
                    free_blocks: final(self).free_blocks,
                    ..*old(self)
                })
                &&& final(self).spec_state_of_index(old(self).spec_block_index(block))
                    == BlockState::Unallocated
                &&& final(self).free_blocks@ == old(self).free_blocks@.push(block)
            },
    {
        let live = !block.rc_dead(self);
        if !live {
            self.release_block(block);
        }
        !live
    }

    /// Sweep a mature block under reference counting: a defrag source
    /// is left for evacuation; a count-dead block is released unless a
    /// mutator is recycling it; and a live block in which something
    /// died becomes reusable, once.
    pub fn rc_sweep_mature(&mut self, block: Block)
        requires
            old(self).wf(),
            old(self).in_space_block(block),
            old(self).spec_free_list_exact(),
            old(self).spec_state_of_index(old(self).spec_block_index(block))
                != BlockState::Unallocated,
        ensures
            final(self).wf(),
            final(self).spec_free_list_exact(),
            ({
                let bi = old(self).spec_block_index(block);
                let st = old(self).spec_state_of_index(bi);
                let dead = forall|k: int|
                    bi * WORDS_IN_BLOCK <= k < bi * WORDS_IN_BLOCK + WORDS_IN_BLOCK ==> old(self).rc.spec_counts()[k] == 0;
                let source = old(self).defrag_state.spec_at(block.spec_start())
                    == crate::block::DEFRAG_SOURCE_STATE;
                &&& (source ==> *final(self) == *old(self))
                &&& (!source && dead && st == BlockState::Reusing ==> *final(self) == *old(self))
                &&& (!source && dead && st != BlockState::Reusing ==> {
                    &&& final(self).spec_state_of_index(bi) == BlockState::Unallocated
                    &&& final(self).free_blocks@ == old(self).free_blocks@.push(block)
                    &&& *final(self) == (ImmixSpace {
                        block_states: final(self).block_states,
                        unlog_bits: final(self).unlog_bits,
                        free_blocks: final(self).free_blocks,
                        ..*old(self)
                    })
                })
                &&& (!source && !dead && (st == BlockState::Reusing || st is Reusable)
                    ==> *final(self) == *old(self))
                &&& (!source && !dead && st != BlockState::Reusing && !(st is Reusable) ==> {
                    &&& final(self).spec_state_of_index(bi) == (BlockState::Reusable {
                        unavailable_lines: 1u8,
                    })
                    &&& final(self).reusable_blocks@ == old(self).reusable_blocks@.push(block)
                    &&& *final(self) == (ImmixSpace {
                        block_states: final(self).block_states,
                        reusable_blocks: final(self).reusable_blocks,
                        ..*old(self)
                    })
                })
            }),
    {
        proof {
            self.lemma_block_tables(block, 0);
        }
        if block.is_defrag_source(&self.defrag_state) {
            return ;
        }
        if block.rc_dead(self) {
            let st = block.get_state(&self.block_states);
            if !matches!(st, BlockState::Reusing) {
                self.release_block(block);
            }
        } else {
            let st = block.get_state(&self.block_states);
            let already = matches!(st, BlockState::Reusing) || st.is_reusable();
            if !already {
                block.set_state(
                    &mut self.block_states,
                    BlockState::Reusable { unavailable_lines: 1 },
                );
                self.reusable_blocks.push(block);
                proof {
                    lemma_free_exact_after_restate(
                        *old(self),
                        *self,
                        old(self).spec_block_index(block),
                    );
                }
            }
        }
    }

    /// Hand out a clean block from the page resource, with its mark,
    /// count and log tables zeroed: a mutator block starts `Nursery`, a
    /// copy destination starts `Marked`. Returns nothing when the free
    /// list is exhausted.
    pub fn get_clean_block(&mut self, copy: bool) -> (r: Option<Block>)
        requires
            old(self).wf(),
            old(self).spec_free_list_exact(),
        ensures
            final(self).wf(),
            final(self).spec_free_list_exact(),
            r is None ==> old(self).free_blocks@.len() == 0 && *final(self) == *old(self),
            r is Some ==> {
                let b = r.unwrap();
                let bi = old(self).spec_block_index(b);
                &&& old(self).free_blocks@.len() > 0
                &&& b == old(self).free_blocks@.last()
                &&& final(self).free_blocks@ == old(self).free_blocks@.drop_last()
                &&& final(self).in_space_block(b)
                &&& final(self).spec_state_of_index(bi) == (if copy {
                    BlockState::Marked
                } else {
                    BlockState::Nursery
                })
                &&& final(self).defrag_state.spec_at(b.spec_start()) == 0
                &&& (forall|k: int|
                    bi * WORDS_IN_BLOCK <= k < bi * WORDS_IN_BLOCK + WORDS_IN_BLOCK ==> {
                        &&& final(self).rc.spec_counts()[k] == 0
                        &&& final(self).mark_table.spec_bytes()[k] == UNMARKED_STATE
                        &&& final(self).unlog_bits.spec_bytes()[k] == 0
                    })
                &&& *final(self) == (ImmixSpace {
                    block_states: final(self).block_states,
                    defrag_state: final(self).defrag_state,
                    rc: final(self).rc,
                    mark_table: final(self).mark_table,
                    unlog_bits: final(self).unlog_bits,
                    free_blocks: final(self).free_blocks,
                    ..*old(self)
                })
            },
    {
        if self.free_blocks.len() == 0 {
            return None;
        }
        let popped = self.free_blocks.pop();
        match popped {
            None => None,
            Some(block) => {
                proof {
                    assert(old(self).free_blocks@[old(self).free_blocks@.len() - 1] == block);
                    assert(old(self).in_space_block(block));
                    self.lemma_block_tables(block, 0);
                    self.lemma_word_tables(block.spec_start());
                    crate::meta::lemma_index_of_multiple(
                        self.spec_base(),
                        8,
                        self.spec_block_index(block) * (WORDS_IN_BLOCK as int),
                    );
                    assert(self.spec_block_index(block) * (WORDS_IN_BLOCK as int) * 8
                        == self.spec_block_index(block) * (BYTES_IN_BLOCK as int)) by {
                        vstd::arithmetic::mul::lemma_mul_is_associative(
                            self.spec_block_index(block),
                            WORDS_IN_BLOCK as int,
                            8,
                        );
                    }
                    assert((self.spec_block_index(block) + 1) * (WORDS_IN_BLOCK as int)
                        <= self.num_blocks * (WORDS_IN_BLOCK as int)) by {
                        vstd::arithmetic::mul::lemma_mul_inequality(
                            self.spec_block_index(block) + 1,
                            self.num_blocks as int,
                            WORDS_IN_BLOCK as int,
                        );
                    }
                    assert((self.spec_block_index(block) + 1) * (WORDS_IN_BLOCK as int)
                        == self.spec_block_index(block) * (WORDS_IN_BLOCK as int)
                        + WORDS_IN_BLOCK) by {
                        vstd::arithmetic::mul::lemma_mul_is_distributive_add_other_way(
                            WORDS_IN_BLOCK as int,
                            self.spec_block_index(block),
                            1,
                        );
                    }
                }
                self.rc.clear_words(block.start(), WORDS_IN_BLOCK);
                self.mark_table.store_range(block.start(), WORDS_IN_BLOCK, UNMARKED_STATE);
                self.unlog_bits.store_range(block.start(), WORDS_IN_BLOCK, 0);
                block.init(&mut self.block_states, &mut self.defrag_state, copy, false);
                proof {
                    let bi = old(self).spec_block_index(block);
                    assert forall|i: int|
                        0 <= i < self.num_blocks && self.spec_state_of_index(i)
                            == BlockState::Unallocated implies self.spec_free_contains_index(
                        i,
                    ) by {
                        assert(i != bi);
                        assert(old(self).spec_free_contains_index(i));
                        let j = choose|j: int|
                            0 <= j < old(self).free_blocks@.len() && old(self).spec_block_index(
                                old(self).free_blocks@[j],
                            ) == i;
                        assert(old(self).free_blocks@[j] == self.free_blocks@[j]);
                        assert(self.spec_block_index(self.free_blocks@[j]) == i);
                    }
                    assert forall|j: int| 0 <= j < self.free_blocks@.len() implies {
                        &&& self.in_space_block(#[trigger] self.free_blocks@[j])
                        &&& self.spec_state_of_index(
                            self.spec_block_index(self.free_blocks@[j]),
                        ) == BlockState::Unallocated
                    } by {
                        assert(self.free_blocks@[j] == old(self).free_blocks@[j]);
                        assert(old(self).spec_block_index(old(self).free_blocks@[j]) != bi);
                    }
                }
                Some(block)
            },
        }
    }

    /// Pop a reusable block for recycling: a mutator block enters
    /// `Reusing`, a copy destination enters `Marked`. Returns nothing
    /// when no reusable block is left.
    pub fn get_reusable_block(&mut self, copy: bool) -> (r: Option<Block>)
        requires
            old(self).wf(),
            old(self).spec_free_list_exact(),
            old(self).spec_blocks_live(old(self).reusable_blocks@),
        ensures
            final(self).wf(),
            final(self).spec_free_list_exact(),
            final(self).spec_blocks_live(final(self).reusable_blocks@),
            r is None ==> old(self).reusable_blocks@.len() == 0 && *final(self) == *old(self),
            r is Some ==> {
                let b = r.unwrap();
                &&& old(self).reusable_blocks@.len() > 0
                &&& b == old(self).reusable_blocks@.last()
                &&& final(self).reusable_blocks@ == old(self).reusable_blocks@.drop_last()
                &&& final(self).in_space_block(b)
                &&& final(self).spec_state_of_index(old(self).spec_block_index(b)) == (if copy {
                    BlockState::Marked
                } else {
                    BlockState::Reusing
                })
                &&& *final(self) == (ImmixSpace {
                    block_states: final(self).block_states,
                    defrag_state: final(self).defrag_state,
                    reusable_blocks: final(self).reusable_blocks,
                    ..*old(self)
                })
            },
    {
        if self.reusable_blocks.len() == 0 {
            return None;
        }
        let popped = self.reusable_blocks.pop();
        match popped {
            None => None,
            Some(block) => {
                proof {
                    assert(old(self).reusable_blocks@[old(self).reusable_blocks@.len() - 1]
                        == block);
                    assert(old(self).in_space_block(block));
                    self.lemma_block_tables(block, 0);
                }
                if copy {
                    block.init(&mut self.block_states, &mut self.defrag_state, true, true);
                } else {
                    block.init(&mut self.block_states, &mut self.defrag_state, false, true);
                }
                proof {
                    lemma_free_exact_after_restate(
                        *old(self),
                        *self,
                        old(self).spec_block_index(block),
                    );
                    assert forall|j: int| 0 <= j < self.reusable_blocks@.len() implies {
                        &&& self.in_space_block(#[trigger] self.reusable_blocks@[j])
                        &&& self.spec_state_of_index(
                            self.spec_block_index(self.reusable_blocks@[j]),
                        ) != BlockState::Unallocated
                    } by {
                        assert(self.reusable_blocks@[j] == old(self).reusable_blocks@[j]);
                        assert(old(self).in_space_block(old(self).reusable_blocks@[j]));
                    }
                }
                Some(block)
            },
        }
    }

    /// Prepare the space for a tracing pause: the object mark state
    /// becomes the marked value and the line-mark epoch advances,
    /// wrapping back to the reset value when it outruns the cycle.
    pub fn prepare(&mut self, initial_mark_pause: bool)
        requires
            old(self).wf(),
        ensures
            final(self).wf(),
            *final(self) == (ImmixSpace {
                mark_state: MARKED_STATE,
                line_mark_state: final(self).line_mark_state,
                initial_mark_pause: initial_mark_pause,
                ..*old(self)
            }),
            final(self).line_mark_state == (if old(self).line_mark_state
                >= crate::line::MAX_MARK_STATE {
                crate::line::RESET_MARK_STATE
            } else {
                (old(self).line_mark_state + 1) as u8
            }),
    {
        self.initial_mark_pause = initial_mark_pause;
        self.mark_state = MARKED_STATE;
        if self.line_mark_state >= crate::line::MAX_MARK_STATE {
            self.line_mark_state = crate::line::RESET_MARK_STATE;
        } else {
            self.line_mark_state = self.line_mark_state + 1;
        }
    }

    /// Release the space after a tracing pause: the epoch just used
    /// becomes the unavailable state for later hole searches, and the
    /// reusable list is rebuilt by sweeping.
    pub fn release(&mut self)
        requires
            old(self).wf(),
        ensures
            final(self).wf(),
            *final(self) == (ImmixSpace {
                line_unavail_state: old(self).line_mark_state,
                reusable_blocks: final(self).reusable_blocks,
                initial_mark_pause: false,
                ..*old(self)
            }),
            final(self).reusable_blocks@.len() == 0,
    {
        self.line_unavail_state = self.line_mark_state;
        self.reusable_blocks = Vec::new();
        self.initial_mark_pause = false;
    }

    /// Prepare the space for a reference-counting pause: only a pause
    /// that traces updates the object mark state.
    pub fn prepare_rc(&mut self, pause: Pause)
        requires
            old(self).wf(),
            pause != Pause::FullTraceDefrag,
        ensures
            final(self).wf(),
            *final(self) == (ImmixSpace { mark_state: final(self).mark_state, ..*old(self) }),
            final(self).mark_state == (if pause == Pause::FullTraceFast || pause
                == Pause::InitialMark {
                MARKED_STATE
            } else {
                old(self).mark_state
            }),
    {
        if matches!(pause, Pause::FullTraceFast) || matches!(pause, Pause::InitialMark) {
            self.mark_state = MARKED_STATE;
        }
    }

    /// Every block on the given list lies in the space.
    pub open spec fn spec_blocks_in_space(self, list: Seq<Block>) -> bool {
        forall|j: int| 0 <= j < list.len() ==> self.in_space_block(#[trigger] list[j])
    }

    /// Release the space after a reference-counting pause: a pause that
    /// traced drains the deferred-release queue, returning each block
    /// whose pages are still held.
    pub fn release_rc(&mut self, pause: Pause)
        requires
            old(self).wf(),
            pause != Pause::FullTraceDefrag,
            old(self).spec_free_list_exact(),
            old(self).spec_blocks_in_space(old(self).pending_release@),
        ensures
            final(self).wf(),
            final(self).spec_free_list_exact(),
            (pause == Pause::FullTraceFast || pause == Pause::FinalMark) ==> {
                &&& final(self).pending_release@.len() == 0
                &&& forall|j: int|
                    0 <= j < old(self).pending_release@.len() ==> {
                        &&& final(self).spec_state_of_index(
                            final(self).spec_block_index(#[trigger] old(self).pending_release@[j]),
                        ) == BlockState::Unallocated
                        &&& final(self).spec_free_contains_index(
                            final(self).spec_block_index(old(self).pending_release@[j]),
                        )
                    }
            },
            !(pause == Pause::FullTraceFast || pause == Pause::FinalMark) ==> *final(self)
                == *old(self),
    {
        if matches!(pause, Pause::FullTraceFast) || matches!(pause, Pause::FinalMark) {
            let ghost all_pending = self.pending_release@;
            while self.pending_release.len() != 0
                invariant
                    self.wf(),
                    self.spec_free_list_exact(),
                    self.spec_blocks_in_space(self.pending_release@),
                    self.pending_release@ == all_pending.subrange(
                        0,
                        self.pending_release@.len() as int,
                    ),
                    self.pending_release@.len() <= all_pending.len(),
                    self.spec_base() == old(self).spec_base(),
                    forall|j: int|
                        self.pending_release@.len() <= j < all_pending.len() ==> {
                            &&& self.spec_state_of_index(
                                self.spec_block_index(#[trigger] all_pending[j]),
                            ) == BlockState::Unallocated
                            &&& self.spec_free_contains_index(
                                self.spec_block_index(all_pending[j]),
                            )
                        },
                decreases self.pending_release@.len(),
            {
                let ghost pending_before = self.pending_release@;
                let ghost prev: ImmixSpace = *self;
                let popped = self.pending_release.pop();
                match popped {
                    None => {},
                    Some(block) => {
                        proof {
                            assert(pending_before[pending_before.len() - 1] == block);
                            assert(self.in_space_block(block));
                            self.lemma_block_tables(block, 0);
                            lemma_free_exact_congruence(prev, *self);
                            assert(self.pending_release@ =~= all_pending.subrange(
                                0,
                                self.pending_release@.len() as int,
                            ));
                        }
                        let ghost mid: ImmixSpace = *self;
                        let st = block.get_state(&self.block_states);
                        if !matches!(st, BlockState::Unallocated) {
                            self.release_block(block);
                        }
                        proof {
                            let m = self.pending_release@.len() as int;
                            let bi = mid.spec_block_index(block);
                            assert forall|j: int| m <= j < all_pending.len() implies {
                                &&& self.spec_state_of_index(
                                    self.spec_block_index(#[trigger] all_pending[j]),
                                ) == BlockState::Unallocated
                                &&& self.spec_free_contains_index(
                                    self.spec_block_index(all_pending[j]),
                                )
                            } by {
                                let ji = self.spec_block_index(all_pending[j]);
                                if j == m {
                                    assert(all_pending[j] == block);
                                    assert(self.spec_state_of_index(ji)
                                        == BlockState::Unallocated);
                                } else {
                                    assert(mid.spec_state_of_index(ji)
                                        == BlockState::Unallocated);
                                    assert(mid.spec_free_contains_index(ji));
                                    if st != BlockState::Unallocated {
                                        let w = choose|w: int|
                                            0 <= w < mid.free_blocks@.len()
                                                && mid.spec_block_index(mid.free_blocks@[w])
                                                == ji;
                                        assert(self.free_blocks@[w] == mid.free_blocks@[w]);
                                        assert(self.spec_block_index(self.free_blocks@[w]) == ji);
                                    }
                                }
                                assert(self.spec_state_of_index(ji) == BlockState::Unallocated);
                            }
                        }
                    },
                }
            }
        }
    }
}

impl ImmixSpace {
    /// Whether line `i` of the block with index `q` is available under
    /// mark-based hole search: its epoch is neither the previous nor the
    /// current collection's state.
    pub open spec fn spec_line_avail(self, q: int, i: int, unavail: u8, current: u8) -> bool {
        &&& self.line_marks.spec_bytes()[q * LINES_IN_BLOCK + i] != unavail
        &&& self.line_marks.spec_bytes()[q * LINES_IN_BLOCK + i] != current
    }

    /// The availability predicate over line indices of block `q`.
    pub open spec fn spec_avail_lines_q(self, q: int, unavail: u8, current: u8) -> spec_fn(
        int,
    ) -> bool {
        |i: int| self.spec_line_avail(q, i, unavail, current)
    }

    /// The complement: occupied line indices of block `q`.
    pub open spec fn spec_unavail_lines_q(self, q: int, unavail: u8, current: u8) -> spec_fn(
        int,
    ) -> bool {
        |i: int| !self.spec_line_avail(q, i, unavail, current)
    }

    /// The least available line of `b` at or above `from`, under the
    /// given two mark epochs.
    fn find_avail_line(&self, b: Block, from: usize, unavail: u8, current: u8) -> (r: usize)
        requires
            self.wf(),
            self.in_space_block(b),
            from <= LINES_IN_BLOCK,
        ensures
            r == spec_find_from(
                self.spec_avail_lines_q(self.spec_block_index(b), unavail, current),
                from as int,
                LINES_IN_BLOCK as int,
            ),
            from <= r <= LINES_IN_BLOCK,
    {
        let mut i: usize = from;
        while i < LINES_IN_BLOCK
            invariant
                from <= i <= LINES_IN_BLOCK,
                self.wf(),
                self.in_space_block(b),
                spec_find_from(
                    self.spec_avail_lines_q(self.spec_block_index(b), unavail, current),
                    from as int,
                    LINES_IN_BLOCK as int,
                ) == spec_find_from(
                    self.spec_avail_lines_q(self.spec_block_index(b), unavail, current),
                    i as int,
                    LINES_IN_BLOCK as int,
                ),
            decreases LINES_IN_BLOCK - i,
        {
            proof {
                self.lemma_block_tables(b, i as int);
            }
            let line_addr = b.start().add(i * BYTES_IN_LINE);
            let mark = self.line_marks.load(line_addr);
            if mark != unavail && mark != current {
                proof {
                    assert((self.spec_avail_lines_q(self.spec_block_index(b), unavail, current))(
                        i as int,
                    ));
                }
                return i;
            }
            proof {
                assert(!(self.spec_avail_lines_q(self.spec_block_index(b), unavail, current))(
                    i as int,
                ));
            }
            i = i + 1;
        }
        i
    }

    /// The least occupied line of `b` at or above `from`, under the
    /// given two mark epochs.
    fn find_unavail_line(&self, b: Block, from: usize, unavail: u8, current: u8) -> (r: usize)
        requires
            self.wf(),
            self.in_space_block(b),
            from <= LINES_IN_BLOCK,
        ensures
            r == spec_find_from(
                self.spec_unavail_lines_q(self.spec_block_index(b), unavail, current),
                from as int,
                LINES_IN_BLOCK as int,
            ),
            from <= r <= LINES_IN_BLOCK,
    {
        let mut i: usize = from;
        while i < LINES_IN_BLOCK
            invariant
                from <= i <= LINES_IN_BLOCK,
                self.wf(),
                self.in_space_block(b),
                spec_find_from(
                    self.spec_unavail_lines_q(self.spec_block_index(b), unavail, current),
                    from as int,
                    LINES_IN_BLOCK as int,
                ) == spec_find_from(
                    self.spec_unavail_lines_q(self.spec_block_index(b), unavail, current),
                    i as int,
                    LINES_IN_BLOCK as int,
                ),
            decreases LINES_IN_BLOCK - i,
        {
            proof {
                self.lemma_block_tables(b, i as int);
            }
            let line_addr = b.start().add(i * BYTES_IN_LINE);
            let mark = self.line_marks.load(line_addr);
            if mark == unavail || mark == current {
                proof {
                    assert((self.spec_unavail_lines_q(self.spec_block_index(b), unavail, current))(
                        i as int,
                    ));
                }
                return i;
            }
            proof {
                assert(!(self.spec_unavail_lines_q(self.spec_block_index(b), unavail, current))(
                    i as int,
                ));
            }
            i = i + 1;
        }
        i
    }

    /// Search the block holding `search_start` for the next free run of
    /// lines, judging lines by their mark epochs: a line is free when
    /// its epoch matches neither the current nor the previous
    /// collection's state. The log bits of a returned run are cleared.
    #[verifier::rlimit(100)]
    #[verifier::spinoff_prover]
    pub fn normal_get_next_available_lines(&mut self, search_start: Line) -> (r: Option<
        (Line, Line),
    >)
        requires
            old(self).wf(),
            old(self).in_space_pos(search_start.spec_start()),
            search_start.wf(),
        ensures
            final(self).wf(),
            *final(self) == (ImmixSpace { unlog_bits: final(self).unlog_bits, ..*old(self) }),
            ({
                let q = old(self).spec_block_index_of_pos(search_start.spec_start());
                let s0 = (search_start.spec_start() % (BYTES_IN_BLOCK as int)) / (
                BYTES_IN_LINE as int);
                let avail = old(self).spec_avail_lines_q(
                    q,
                    old(self).line_unavail_state,
                    old(self).line_mark_state,
                );
                let unavail = old(self).spec_unavail_lines_q(
                    q,
                    old(self).line_unavail_state,
                    old(self).line_mark_state,
                );
                let st = spec_find_from(avail, s0, LINES_IN_BLOCK as int) + 1;
                let en = spec_find_from(unavail, st, LINES_IN_BLOCK as int);
                let bs = old(self).spec_base() + q * BYTES_IN_BLOCK;
                &&& (r is Some <==> (st < LINES_IN_BLOCK && avail(st)))
                &&& (r is None ==> final(self).unlog_bits == old(self).unlog_bits)
                &&& (r is Some ==> {
                    &&& en > st
                    &&& r.unwrap().0.wf()
                    &&& r.unwrap().1.wf()
                    &&& r.unwrap().0.spec_start() == bs + st * BYTES_IN_LINE
                    &&& r.unwrap().1.spec_start() == bs + en * BYTES_IN_LINE
                    &&& forall|k: int|
                        q * WORDS_IN_BLOCK + st * WORDS_IN_LINE <= k < q * WORDS_IN_BLOCK + en
                            * WORDS_IN_LINE ==> final(self).unlog_bits.spec_bytes()[k] == 0
                    &&& forall|k: int|
                        0 <= k < old(self).unlog_bits.spec_bytes().len() && !(q * WORDS_IN_BLOCK
                            + st * WORDS_IN_LINE <= k < q * WORDS_IN_BLOCK + en * WORDS_IN_LINE)
                            ==> final(self).unlog_bits.spec_bytes()[k] == old(self).unlog_bits.spec_bytes()[k]
                })
            }),
    {
        let b = search_start.block();
        proof {
            crate::block::lemma_containing_in_space(
                search_start.spec_start(),
                self.spec_base(),
                self.num_blocks as int,
            );
            self.lemma_block_index_of_inner(search_start.spec_start());
            assert(self.spec_block_index(b) == self.spec_block_index_of_pos(
                search_start.spec_start(),
            ));
        }
        let ghost q = self.spec_block_index(b);
        let unavail_state = self.line_unavail_state;
        let current_state = self.line_mark_state;
        let s0 = search_start.get_index_within_block();
        let f = self.find_avail_line(b, s0, unavail_state, current_state);
        proof {
            lemma_find_from(
                self.spec_avail_lines_q(q, unavail_state, current_state),
                s0 as int,
                LINES_IN_BLOCK as int,
            );
        }
        if f + 1 >= LINES_IN_BLOCK {
            return None;
        }
        let st = f + 1;
        let en = self.find_unavail_line(b, st, unavail_state, current_state);
        proof {
            lemma_find_from(
                self.spec_unavail_lines_q(q, unavail_state, current_state),
                st as int,
                LINES_IN_BLOCK as int,
            );
        }
        if en == st {
            proof {
                assert((self.spec_unavail_lines_q(q, unavail_state, current_state))(st as int));
            }
            return None;
        }
        proof {
            assert(!(self.spec_unavail_lines_q(q, unavail_state, current_state))(st as int));
            assert(en > st);
            self.lemma_block_tables(b, st as int);
            self.lemma_block_tables(b, en as int - 1);
            assert((en - st) * (WORDS_IN_LINE as int) == en * (WORDS_IN_LINE as int) - st * (
            WORDS_IN_LINE as int)) by {
                vstd::arithmetic::mul::lemma_mul_is_distributive_sub_other_way(
                    WORDS_IN_LINE as int,
                    en as int,
                    st as int,
                );
            }
        }
        let start_addr = b.start().add(st * BYTES_IN_LINE);
        self.unlog_bits.store_range(start_addr, (en - st) * WORDS_IN_LINE, 0);
        let end_addr = b.start().add(en * BYTES_IN_LINE);
        Some((Line::from(start_addr), Line::from(end_addr)))
    }

    /// Trace an object without moving it: mark it, and when this call
    /// was the one that marked it, stamp the lines it spans and enqueue
    /// it for scanning.
    pub fn trace_object_without_moving(
        &mut self,
        object: ObjectReference,
        size_words: usize,
        queue: &mut Vec<ObjectReference>,
    ) -> (r: ObjectReference)
        requires
            old(self).wf(),
            old(self).in_space(object),
            size_words >= 1,
            object.spec_value() + size_words * 8 <= old(self).spec_end(),
        ensures
            final(self).wf(),
            r == object,
            *final(self) == (ImmixSpace {
                mark_table: final(self).mark_table,
                line_marks: final(self).line_marks,
                ..*old(self)
            }),
            final(self).mark_table.spec_bytes() == old(self).mark_table.spec_bytes().update(
                old(self).mark_table.spec_index_of(object.spec_value()),
                old(self).mark_state,
            ),
            old(self).mark_table.spec_at(object.spec_value()) == old(self).mark_state ==> final(queue)@ == old(queue)@ && final(self).line_marks == old(self).line_marks,
            old(self).mark_table.spec_at(object.spec_value()) != old(self).mark_state ==> ({
                let li_first = old(self).spec_line_index_of_pos(object.spec_value());
                let li_last = old(self).spec_line_index_of_pos(
                    object.spec_value() + size_words * 8 - 8,
                );
                &&& final(queue)@ == old(queue)@.push(object)
                &&& (forall|li: int|
                    li_first <= li <= li_last ==> #[trigger] final(self).line_marks.spec_bytes()[li] == old(self).line_mark_state)
                &&& (forall|li: int|
                    0 <= li < old(self).line_marks.spec_bytes().len() && !(li_first <= li
                        <= li_last) ==> #[trigger] final(self).line_marks.spec_bytes()[li] == old(self).line_marks.spec_bytes()[li])
            }),
    {
        if self.attempt_mark(object) {
            self.mark_lines(object, size_words);
            queue.push(object);
        }
        object
    }

    /// The line index of a heap position within the whole space.
    pub open spec fn spec_line_index_of_pos(self, pos: int) -> int {
        (pos - self.spec_base()) / (BYTES_IN_LINE as int)
    }

    /// Write `v` into the straddle bytes of the tail lines an object
    /// spans: every line after the object's first that any of its words
    /// falls into. Promotion writes one, dead-object processing writes
    /// zero. An object confined to one line touches nothing.
    #[verifier::rlimit(100)]
    #[verifier::spinoff_prover]
    pub fn set_straddle_lines(&mut self, o: ObjectReference, size_words: usize, v: u8)
        requires
            old(self).wf(),
            old(self).in_space(o),
            size_words >= 1,
            o.spec_value() + size_words * 8 <= old(self).spec_end(),
        ensures
            final(self).wf(),
            *final(self) == (ImmixSpace {
                straddle_lines: final(self).straddle_lines,
                ..*old(self)
            }),
            ({
                let li_first = old(self).spec_line_index_of_pos(o.spec_value());
                let li_last = old(self).spec_line_index_of_pos(
                    o.spec_value() + size_words * 8 - 8,
                );
                &&& (forall|li: int|
                    li_first < li <= li_last ==> #[trigger] final(self).straddle_lines.spec_bytes()[li] == v)
                &&& (forall|li: int|
                    0 <= li < old(self).straddle_lines.spec_bytes().len() && !(li_first < li
                        <= li_last) ==> #[trigger] final(self).straddle_lines.spec_bytes()[li]
                        == old(self).straddle_lines.spec_bytes()[li])
            }),
    {
        proof {
            self.lemma_word_tables(o.spec_value());
        }
        let last_word = o.to_address().add(size_words * 8 - 8);
        let li_first = o.to_address().get_extent(self.base) / BYTES_IN_LINE;
        let li_last = last_word.get_extent(self.base) / BYTES_IN_LINE;
        proof {
            let bl = BYTES_IN_LINE as int;
            let base = self.spec_base();
            assert(base % bl == 0) by {
                lemma_aligned_coarser(base, bl, LINES_IN_BLOCK as int);
                assert(bl * (LINES_IN_BLOCK as int) == BYTES_IN_BLOCK);
            }
            // Both line indices stay inside the straddle table.
            assert(last_word.spec_usize() - base < self.num_blocks * (LINES_IN_BLOCK as int)
                * bl) by {
                vstd::arithmetic::mul::lemma_mul_is_associative(
                    self.num_blocks as int,
                    LINES_IN_BLOCK as int,
                    bl,
                );
            }
            assert(li_last < self.num_blocks * (LINES_IN_BLOCK as int)) by {
                let d = last_word.spec_usize() - base;
                let lines = self.num_blocks * (LINES_IN_BLOCK as int);
                vstd::arithmetic::div_mod::lemma_fundamental_div_mod(d, bl);
                vstd::arithmetic::div_mod::lemma_mod_bound(d, bl);
                if d / bl >= lines {
                    vstd::arithmetic::mul::lemma_mul_inequality(lines, d / bl, bl);
                    vstd::arithmetic::mul::lemma_mul_is_commutative(d / bl, bl);
                    assert(false);
                }
            }
            assert(li_first <= li_last) by {
                vstd::arithmetic::div_mod::lemma_div_is_ordered(
                    o.spec_value() - base,
                    last_word.spec_usize() - base,
                    bl,
                );
            }
        }
        if li_last == li_first {
            return ;
        }
        let n_tail = li_last - li_first;
        proof {
            vstd::arithmetic::mul::lemma_mul_strict_inequality(
                li_first as int + 1,
                self.num_blocks * (LINES_IN_BLOCK as int),
                BYTES_IN_LINE as int,
            );
            vstd::arithmetic::mul::lemma_mul_is_commutative(
                li_first as int + 1,
                BYTES_IN_LINE as int,
            );
            vstd::arithmetic::mul::lemma_mul_is_commutative(
                self.num_blocks * (LINES_IN_BLOCK as int),
                BYTES_IN_LINE as int,
            );
            vstd::arithmetic::mul::lemma_mul_is_associative(
                self.num_blocks as int,
                LINES_IN_BLOCK as int,
                BYTES_IN_LINE as int,
            );
            vstd::arithmetic::div_mod::lemma_mod_multiples_vanish(
                li_first as int + 1,
                self.spec_base(),
                BYTES_IN_LINE as int,
            );
            crate::meta::lemma_index_of_multiple(
                self.spec_base(),
                BYTES_IN_LINE as int,
                li_first as int + 1,
            );
        }
        let start_addr = self.base.add((li_first + 1) * BYTES_IN_LINE);
        self.straddle_lines.store_range(start_addr, n_tail, v);
    }

    /// Stamp every line an object spans with the current line-mark
    /// epoch, as tracing does for each object it marks.
    #[verifier::rlimit(100)]
    #[verifier::spinoff_prover]
    pub fn mark_lines(&mut self, o: ObjectReference, size_words: usize)
        requires
            old(self).wf(),
            old(self).in_space(o),
            size_words >= 1,
            o.spec_value() + size_words * 8 <= old(self).spec_end(),
        ensures
            final(self).wf(),
            *final(self) == (ImmixSpace { line_marks: final(self).line_marks, ..*old(self) }),
            ({
                let li_first = old(self).spec_line_index_of_pos(o.spec_value());
                let li_last = old(self).spec_line_index_of_pos(
                    o.spec_value() + size_words * 8 - 8,
                );
                &&& (forall|li: int|
                    li_first <= li <= li_last ==> #[trigger] final(self).line_marks.spec_bytes()[li] == old(self).line_mark_state)
                &&& (forall|li: int|
                    0 <= li < old(self).line_marks.spec_bytes().len() && !(li_first <= li
                        <= li_last) ==> #[trigger] final(self).line_marks.spec_bytes()[li] == old(self).line_marks.spec_bytes()[li])
            }),
    {
        proof {
            self.lemma_word_tables(o.spec_value());
        }
        let last_word = o.to_address().add(size_words * 8 - 8);
        let li_first = o.to_address().get_extent(self.base) / BYTES_IN_LINE;
        let li_last = last_word.get_extent(self.base) / BYTES_IN_LINE;
        proof {
            let bl = BYTES_IN_LINE as int;
            let base = self.spec_base();
            assert(base % bl == 0) by {
                lemma_aligned_coarser(base, bl, LINES_IN_BLOCK as int);
                assert(bl * (LINES_IN_BLOCK as int) == BYTES_IN_BLOCK);
            }
            assert(last_word.spec_usize() - base < self.num_blocks * (LINES_IN_BLOCK as int)
                * bl) by {
                vstd::arithmetic::mul::lemma_mul_is_associative(
                    self.num_blocks as int,
                    LINES_IN_BLOCK as int,
                    bl,
                );
            }
            assert(li_last < self.num_blocks * (LINES_IN_BLOCK as int)) by {
                let d = last_word.spec_usize() - base;
                let lines = self.num_blocks * (LINES_IN_BLOCK as int);
                vstd::arithmetic::div_mod::lemma_fundamental_div_mod(d, bl);
                vstd::arithmetic::div_mod::lemma_mod_bound(d, bl);
                if d / bl >= lines {
                    vstd::arithmetic::mul::lemma_mul_inequality(lines, d / bl, bl);
                    vstd::arithmetic::mul::lemma_mul_is_commutative(d / bl, bl);
                    assert(false);
                }
            }
            assert(li_first <= li_last) by {
                vstd::arithmetic::div_mod::lemma_div_is_ordered(
                    o.spec_value() - base,
                    last_word.spec_usize() - base,
                    bl,
                );
            }
            vstd::arithmetic::mul::lemma_mul_strict_inequality(
                li_first as int,
                self.num_blocks * (LINES_IN_BLOCK as int),
                BYTES_IN_LINE as int,
            );
            vstd::arithmetic::mul::lemma_mul_is_commutative(
                li_first as int,
                BYTES_IN_LINE as int,
            );
            vstd::arithmetic::mul::lemma_mul_is_commutative(
                self.num_blocks * (LINES_IN_BLOCK as int),
                BYTES_IN_LINE as int,
            );
            vstd::arithmetic::mul::lemma_mul_is_associative(
                self.num_blocks as int,
                LINES_IN_BLOCK as int,
                BYTES_IN_LINE as int,
            );
            vstd::arithmetic::div_mod::lemma_mod_multiples_vanish(
                li_first as int,
                self.spec_base(),
                BYTES_IN_LINE as int,
            );
            crate::meta::lemma_index_of_multiple(
                self.spec_base(),
                BYTES_IN_LINE as int,
                li_first as int,
            );
            vstd::arithmetic::div_mod::lemma_div_pos_is_pos(
                o.spec_value() - self.spec_base(),
                BYTES_IN_LINE as int,
            );
        }
        let n = li_last - li_first + 1;
        let start_addr = self.base.add(li_first * BYTES_IN_LINE);
        let state = self.line_mark_state;
        self.line_marks.store_range(start_addr, n, state);
    }

    /// Record an edge for mature evacuation: while concurrent marking
    /// or the final mark runs, an edge from outside the collection set
    /// into it joins the remembered set, so evacuation need not scan
    /// the whole heap.
    pub fn record_mature_evac_remset(
        &mut self,
        e: Address,
        o: ObjectReference,
        in_active_marking: bool,
    )
        requires
            old(self).wf(),
            old(self).in_space_pos(e.spec_usize()),
            old(self).in_space(o),
        ensures
            final(self).wf(),
            *final(self) == (ImmixSpace { remset: final(self).remset, ..*old(self) }),
            ({
                let crossing = old(self).defrag_state.spec_at(
                    crate::block::spec_block_start_containing(e.spec_usize()),
                ) != crate::block::DEFRAG_SOURCE_STATE && old(self).defrag_state.spec_at(
                    crate::block::spec_block_start_containing(o.spec_value()),
                ) == crate::block::DEFRAG_SOURCE_STATE;
                &&& (in_active_marking && crossing ==> final(self).remset@ == old(
                    self,
                ).remset@.push(e))
                &&& (!(in_active_marking && crossing) ==> final(self).remset@ == old(
                    self,
                ).remset@)
            }),
    {
        if !in_active_marking {
            return ;
        }
        let src_block = Block::containing(e.to_object_reference());
        let dst_block = Block::containing(o);
        proof {
            crate::block::lemma_containing_in_space(
                e.spec_usize(),
                self.spec_base(),
                self.num_blocks as int,
            );
            crate::block::lemma_containing_in_space(
                o.spec_value(),
                self.spec_base(),
                self.num_blocks as int,
            );
            self.lemma_block_tables(src_block, 0);
            self.lemma_block_tables(dst_block, 0);
        }
        if !src_block.is_defrag_source(&self.defrag_state) && dst_block.is_defrag_source(
            &self.defrag_state,
        ) {
            self.remset.push(e);
        }
    }

    /// Hole search dispatch: under reference counting lines are judged
    /// by their counts and straddle bits, otherwise by their mark
    /// epochs; either way the first line of the free run is skipped and
    /// the run's log bits are cleared.
    pub fn get_next_available_lines(&mut self, search_start: Line, ref_count: bool) -> (r: Option<
        (Line, Line),
    >)
        requires
            old(self).wf(),
            old(self).in_space_pos(search_start.spec_start()),
            search_start.wf(),
        ensures
            final(self).wf(),
            *final(self) == (ImmixSpace { unlog_bits: final(self).unlog_bits, ..*old(self) }),
            ({
                let q = old(self).spec_block_index_of_pos(search_start.spec_start());
                let s0 = (search_start.spec_start() % (BYTES_IN_BLOCK as int)) / (
                BYTES_IN_LINE as int);
                let free = if ref_count {
                    old(self).spec_free_lines_q(q)
                } else {
                    old(self).spec_avail_lines_q(
                        q,
                        old(self).line_unavail_state,
                        old(self).line_mark_state,
                    )
                };
                let occupied = if ref_count {
                    old(self).spec_occupied_lines_q(q)
                } else {
                    old(self).spec_unavail_lines_q(
                        q,
                        old(self).line_unavail_state,
                        old(self).line_mark_state,
                    )
                };
                let st = spec_find_from(free, s0, LINES_IN_BLOCK as int) + 1;
                let en = spec_find_from(occupied, st, LINES_IN_BLOCK as int);
                let bs = old(self).spec_base() + q * BYTES_IN_BLOCK;
                &&& (r is Some <==> (st < LINES_IN_BLOCK && free(st)))
                &&& (r is None ==> final(self).unlog_bits == old(self).unlog_bits)
                &&& (r is Some ==> {
                    &&& en > st
                    &&& r.unwrap().0.wf()
                    &&& r.unwrap().1.wf()
                    &&& r.unwrap().0.spec_start() == bs + st * BYTES_IN_LINE
                    &&& r.unwrap().1.spec_start() == bs + en * BYTES_IN_LINE
                    &&& forall|k: int|
                        q * WORDS_IN_BLOCK + st * WORDS_IN_LINE <= k < q * WORDS_IN_BLOCK + en
                            * WORDS_IN_LINE ==> final(self).unlog_bits.spec_bytes()[k] == 0
                    &&& forall|k: int|
                        0 <= k < old(self).unlog_bits.spec_bytes().len() && !(q * WORDS_IN_BLOCK
                            + st * WORDS_IN_LINE <= k < q * WORDS_IN_BLOCK + en * WORDS_IN_LINE)
                            ==> final(self).unlog_bits.spec_bytes()[k] == old(self).unlog_bits.spec_bytes()[k]
                })
            }),
    {
        if ref_count {
            self.rc_get_next_available_lines(search_start)
        } else {
            self.normal_get_next_available_lines(search_start)
        }
    }
}

} // verus!