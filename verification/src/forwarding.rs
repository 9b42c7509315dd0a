//! Forwarding: the per-object state that evacuation installs, and the
//! opportunistic-copy trace step that uses it.
//!
//! The forwarding status of an object lives in a word-granular side
//! table; once a copy commits, the address of the copy is written into
//! the original's first word.

use vstd::prelude::*;

verus! {

use crate::address::Address;
use crate::address::ObjectReference;
use crate::block::Block;
use crate::block::BlockState;
use crate::memory::HeapMemory;
use crate::meta::ByteTable;
use crate::space::ImmixSpace;

broadcast use crate::address::lemma_object_reference_bounds;

/// Status byte: no forwarding attempt has claimed the object.
pub const FORWARDING_NOT_TRIGGERED_YET: u8 = 0;
/// Status byte: a copier holds the object and is moving it.
pub const BEING_FORWARDED: u8 = 2;
/// Status byte: the object has been moved and its first word holds the
/// address of the copy.
pub const FORWARDED: u8 = 3;

/// Whether a status byte read from the table means that some copier
/// already claimed the object.
pub fn state_is_forwarded_or_being_forwarded(status: u8) -> (r: bool)
    ensures
        r == (status != FORWARDING_NOT_TRIGGERED_YET),
{
    status != FORWARDING_NOT_TRIGGERED_YET
}

/// Whether the object has been moved.
pub fn is_forwarded(fwd: &ByteTable, object: ObjectReference) -> (r: bool)
    requires
        fwd.wf(),
        fwd.spec_unit() == 8,
        fwd.in_range(object.spec_value()),
    ensures
        r == (fwd.spec_at(object.spec_value()) == FORWARDED),
{
    fwd.load(object.to_address()) == FORWARDED
}

/// Try to claim the object for copying: if nobody holds it, mark it as
/// being forwarded; either way return the previous status.
pub fn attempt_to_forward(fwd: &mut ByteTable, object: ObjectReference) -> (r: u8)
    requires
        old(fwd).wf(),
        old(fwd).spec_unit() == 8,
        old(fwd).in_range(object.spec_value()),
    ensures
        final(fwd).wf(),
        final(fwd).spec_base() == old(fwd).spec_base(),
        final(fwd).spec_unit() == old(fwd).spec_unit(),
        r == old(fwd).spec_at(object.spec_value()),
        r == FORWARDING_NOT_TRIGGERED_YET ==> final(fwd).spec_bytes() == old(fwd).spec_bytes().update(old(fwd).spec_index_of(object.spec_value()), BEING_FORWARDED),
        r != FORWARDING_NOT_TRIGGERED_YET ==> final(fwd).spec_bytes() == old(fwd).spec_bytes(),
{
    let old_status = fwd.load(object.to_address());
    if old_status == FORWARDING_NOT_TRIGGERED_YET {
        fwd.store(object.to_address(), BEING_FORWARDED);
    }
    old_status
}

/// Give the claim back without copying: the object stays in place.
pub fn clear_forwarding_bits(fwd: &mut ByteTable, object: ObjectReference)
    requires
        old(fwd).wf(),
        old(fwd).spec_unit() == 8,
        old(fwd).in_range(object.spec_value()),
    ensures
        final(fwd).wf(),
        final(fwd).spec_base() == old(fwd).spec_base(),
        final(fwd).spec_unit() == old(fwd).spec_unit(),
        final(fwd).spec_bytes() == old(fwd).spec_bytes().update(
            old(fwd).spec_index_of(object.spec_value()),
            FORWARDING_NOT_TRIGGERED_YET,
        ),
{
    fwd.store(object.to_address(), FORWARDING_NOT_TRIGGERED_YET);
}

/// The copy an object was moved to, read through its first word.
pub fn read_forwarding_pointer(fwd: &ByteTable, mem: &HeapMemory, object: ObjectReference) -> (r:
    ObjectReference)
    requires
        fwd.wf(),
        fwd.spec_unit() == 8,
        fwd.in_range(object.spec_value()),
        fwd.spec_at(object.spec_value()) == FORWARDED,
        mem.wf(),
        mem.in_heap(object.spec_value()),
    ensures
        r.spec_value() == mem.spec_at(object.spec_value()),
{
    mem.load_reference(object.to_address())
}

/// Wait out a racing copier and read the copy's address. In this model
/// a claim always completes before anyone else looks, so the object is
/// already forwarded.
pub fn spin_and_get_forwarded_object(
    fwd: &ByteTable,
    mem: &HeapMemory,
    object: ObjectReference,
    forwarding_status: u8,
) -> (r: ObjectReference)
    requires
        fwd.wf(),
        fwd.spec_unit() == 8,
        fwd.in_range(object.spec_value()),
        forwarding_status == fwd.spec_at(object.spec_value()),
        fwd.spec_at(object.spec_value()) == FORWARDED,
        mem.wf(),
        mem.in_heap(object.spec_value()),
    ensures
        r.spec_value() == mem.spec_at(object.spec_value()),
{
    read_forwarding_pointer(fwd, mem, object)
}

/// Copy the object's words to `to`, mark the original forwarded, and
/// write the copy's address into the original's first word. Re-reading
/// through the forwarding pointer then yields an object of equal size
/// whose words equal the original's, field by field.
pub fn forward_object(
    fwd: &mut ByteTable,
    mem: &mut HeapMemory,
    object: ObjectReference,
    to: ObjectReference,
    size_words: usize,
) -> (r: ObjectReference)
    requires
        old(fwd).wf(),
        old(fwd).spec_unit() == 8,
        old(fwd).in_range(object.spec_value()),
        old(fwd).in_range(to.spec_value()),
        old(mem).wf(),
        old(mem).in_heap(object.spec_value()),
        old(mem).in_heap(to.spec_value()),
        size_words >= 1,
        old(mem).spec_index_of(object.spec_value()) + size_words <= old(mem).spec_words().len(),
        old(mem).spec_index_of(to.spec_value()) + size_words <= old(mem).spec_words().len(),
        old(mem).spec_index_of(object.spec_value()) + size_words <= old(mem).spec_index_of(
            to.spec_value(),
        ) || old(mem).spec_index_of(to.spec_value()) + size_words <= old(mem).spec_index_of(
            object.spec_value(),
        ),
    ensures
        final(fwd).wf(),
        final(fwd).spec_base() == old(fwd).spec_base(),
        final(fwd).spec_unit() == old(fwd).spec_unit(),
        final(mem).wf(),
        final(mem).spec_base() == old(mem).spec_base(),
        final(mem).spec_words().len() == old(mem).spec_words().len(),
        r == to,
        final(fwd).spec_bytes() == old(fwd).spec_bytes().update(
            old(fwd).spec_index_of(object.spec_value()),
            FORWARDED,
        ),
        final(mem).spec_at(object.spec_value()) == to.spec_value(),
        forall|k: int|
            0 <= k < size_words ==> #[trigger] final(mem).spec_words()[old(mem).spec_index_of(
                to.spec_value(),
            ) + k] == old(mem).spec_words()[old(mem).spec_index_of(object.spec_value()) + k],
        forall|j: int|
            0 <= j < old(mem).spec_words().len() && !(old(mem).spec_index_of(to.spec_value()) <= j
                < old(mem).spec_index_of(to.spec_value()) + size_words) && j != old(mem).spec_index_of(object.spec_value()) ==> final(mem).spec_words()[j] == old(mem).spec_words()[j],
{
    proof {
        mem.lemma_in_bounds(object.spec_value());
        mem.lemma_in_bounds(to.spec_value());
    }
    mem.copy_words(object.to_address(), to.to_address(), size_words);
    mem.store(object.to_address(), to.value());
    fwd.store(object.to_address(), FORWARDED);
    to
}

/// Evacuate one mature object through the remembered set: copy it,
/// transfer its reference count onto the copy, and mark the copy.
/// A claim that lost finds the existing copy instead.
pub fn forward_mature_object(
    space: &mut ImmixSpace,
    fwd: &mut ByteTable,
    mem: &mut HeapMemory,
    o: ObjectReference,
    to: ObjectReference,
    size_words: usize,
) -> (r: ObjectReference)
    requires
        old(space).wf(),
        old(space).in_space(o),
        old(space).in_space(to),
        old(fwd).wf(),
        old(fwd).spec_unit() == 8,
        old(fwd).spec_base() == old(space).spec_base(),
        old(fwd).spec_bytes().len() == old(space).num_blocks * crate::WORDS_IN_BLOCK,
        old(mem).wf(),
        old(mem).spec_base() == old(space).spec_base(),
        old(mem).spec_words().len() == old(space).num_blocks * crate::WORDS_IN_BLOCK,
        old(fwd).spec_at(o.spec_value()) == FORWARDING_NOT_TRIGGERED_YET || old(fwd).spec_at(
            o.spec_value(),
        ) == FORWARDED,
        size_words >= 1,
        old(mem).spec_index_of(o.spec_value()) + size_words <= old(mem).spec_words().len(),
        old(mem).spec_index_of(to.spec_value()) + size_words <= old(mem).spec_words().len(),
        old(mem).spec_index_of(o.spec_value()) + size_words <= old(mem).spec_index_of(
            to.spec_value(),
        ) || old(mem).spec_index_of(to.spec_value()) + size_words <= old(mem).spec_index_of(
            o.spec_value(),
        ),
    ensures
        final(space).wf(),
        final(fwd).wf(),
        final(mem).wf(),
        old(fwd).spec_at(o.spec_value()) == FORWARDED ==> {
            &&& r.spec_value() == old(mem).spec_at(o.spec_value())
            &&& *final(space) == *old(space)
            &&& *final(mem) == *old(mem)
        },
        old(fwd).spec_at(o.spec_value()) == FORWARDING_NOT_TRIGGERED_YET ==> {
            &&& r == to
            &&& final(fwd).spec_bytes() == old(fwd).spec_bytes().update(
                old(fwd).spec_index_of(o.spec_value()),
                FORWARDED,
            )
            &&& final(mem).spec_at(o.spec_value()) == to.spec_value()
            &&& (forall|k: int|
                0 <= k < size_words ==> #[trigger] final(mem).spec_words()[old(mem).spec_index_of(
                    to.spec_value(),
                ) + k] == old(mem).spec_words()[old(mem).spec_index_of(o.spec_value()) + k])
            &&& final(space).rc.spec_count(to) == old(space).rc.spec_count(o)
            &&& final(space).mark_table.spec_at(to.spec_value()) == old(space).mark_state
        },
{
    proof {
        space.lemma_word_tables(o.spec_value());
        space.lemma_word_tables(to.spec_value());
        crate::space::lemma_block_bytes_are_words(space.num_blocks as int);
    }
    proof {
        assert(fwd.in_range(o.spec_value()));
        assert(fwd.in_range(to.spec_value()));
        assert(mem.in_heap(o.spec_value()));
        assert(mem.in_heap(to.spec_value()));
    }
    let forwarding_status = attempt_to_forward(fwd, o);
    if state_is_forwarded_or_being_forwarded(forwarding_status) {
        return spin_and_get_forwarded_object(fwd, mem, o, forwarding_status);
    }
    let count = space.rc.count(o);
    let new_object = forward_object(fwd, mem, o, to, size_words);
    space.rc.set(new_object, count);
    space.attempt_mark(new_object);
    new_object
}

/// Trace an object that sits in a defrag source, copying it when the
/// copy reserve allows: a claim that lost returns the existing copy; an
/// already marked object stays; a pinned object or an exhausted copy
/// reserve pins it in place and marks it and its block; otherwise the
/// object moves to `copy_to`, which is marked and enqueued.
#[verifier::rlimit(100)]
#[verifier::spinoff_prover]
pub fn trace_object_with_opportunistic_copy(
    space: &mut ImmixSpace,
    fwd: &mut ByteTable,
    mem: &mut HeapMemory,
    object: ObjectReference,
    size_words: usize,
    copy_to: ObjectReference,
    pinned: bool,
    space_exhausted: bool,
    queue: &mut Vec<ObjectReference>,
) -> (r: ObjectReference)
    requires
        old(space).wf(),
        old(space).spec_free_list_exact(),
        old(space).in_space(object),
        old(space).in_space(copy_to),
        old(fwd).wf(),
        old(fwd).spec_unit() == 8,
        old(fwd).spec_base() == old(space).spec_base(),
        old(fwd).spec_bytes().len() == old(space).num_blocks * crate::WORDS_IN_BLOCK,
        old(mem).wf(),
        old(mem).spec_base() == old(space).spec_base(),
        old(mem).spec_words().len() == old(space).num_blocks * crate::WORDS_IN_BLOCK,
        old(fwd).spec_at(object.spec_value()) == FORWARDING_NOT_TRIGGERED_YET || old(fwd).spec_at(
            object.spec_value(),
        ) == FORWARDED,
        old(fwd).spec_at(object.spec_value()) == FORWARDED ==> old(mem).in_heap(
            object.spec_value(),
        ),
        size_words >= 1,
        old(mem).spec_index_of(object.spec_value()) + size_words <= old(mem).spec_words().len(),
        old(mem).spec_index_of(copy_to.spec_value()) + size_words <= old(mem).spec_words().len(),
        old(mem).spec_index_of(object.spec_value()) + size_words <= old(mem).spec_index_of(
            copy_to.spec_value(),
        ) || old(mem).spec_index_of(copy_to.spec_value()) + size_words <= old(mem).spec_index_of(
            object.spec_value(),
        ),
        old(space).spec_state_of_index(
            old(space).spec_block_index_of_pos(object.spec_value()),
        ) != BlockState::Unallocated,
    ensures
        final(space).wf(),
        final(space).spec_free_list_exact(),
        ({
            let status0 = old(fwd).spec_at(object.spec_value());
            let marked0 = old(space).mark_table.spec_at(object.spec_value()) == old(space).mark_state;
            &&& (status0 == FORWARDED ==> {
                &&& r.spec_value() == old(mem).spec_at(object.spec_value())
                &&& *final(space) == *old(space)
                &&& final(fwd).spec_bytes() == old(fwd).spec_bytes()
                &&& *final(mem) == *old(mem)
                &&& final(queue)@ == old(queue)@
            })
            &&& (status0 == FORWARDING_NOT_TRIGGERED_YET && marked0 ==> {
                &&& r == object
                &&& *final(space) == *old(space)
                &&& final(fwd).spec_bytes() == old(fwd).spec_bytes().update(
                    old(fwd).spec_index_of(object.spec_value()),
                    FORWARDING_NOT_TRIGGERED_YET,
                )
                &&& *final(mem) == *old(mem)
                &&& final(queue)@ == old(queue)@
            })
            &&& (status0 == FORWARDING_NOT_TRIGGERED_YET && !marked0 && (pinned
                || space_exhausted) ==> {
                &&& r == object
                &&& *final(space) == (ImmixSpace {
                    mark_table: final(space).mark_table,
                    block_states: final(space).block_states,
                    line_marks: final(space).line_marks,
                    ..*old(space)
                })
                &&& final(space).mark_table.spec_at(object.spec_value()) == old(space).mark_state
                &&& final(space).spec_state_of_index(
                    old(space).spec_block_index_of_pos(object.spec_value()),
                ) == BlockState::Marked
                &&& (forall|li: int|
                    old(space).spec_line_index_of_pos(object.spec_value()) <= li <= old(
                        space,
                    ).spec_line_index_of_pos(object.spec_value() + size_words * 8 - 8)
                        ==> #[trigger] final(space).line_marks.spec_bytes()[li] == old(
                        space,
                    ).line_mark_state)
                &&& final(fwd).spec_bytes() == old(fwd).spec_bytes().update(
                    old(fwd).spec_index_of(object.spec_value()),
                    FORWARDING_NOT_TRIGGERED_YET,
                )
                &&& *final(mem) == *old(mem)
                &&& final(queue)@ == old(queue)@
            })
            &&& (status0 == FORWARDING_NOT_TRIGGERED_YET && !marked0 && !pinned
                && !space_exhausted ==> {
                &&& r == copy_to
                &&& *final(space) == (ImmixSpace {
                    mark_table: final(space).mark_table,
                    line_marks: final(space).line_marks,
                    ..*old(space)
                })
                &&& final(space).mark_table.spec_at(copy_to.spec_value()) == old(space).mark_state
                &&& (forall|li: int|
                    old(space).spec_line_index_of_pos(copy_to.spec_value()) <= li <= old(
                        space,
                    ).spec_line_index_of_pos(copy_to.spec_value() + size_words * 8 - 8)
                        ==> #[trigger] final(space).line_marks.spec_bytes()[li] == old(
                        space,
                    ).line_mark_state)
                &&& final(fwd).spec_bytes() == old(fwd).spec_bytes().update(
                    old(fwd).spec_index_of(object.spec_value()),
                    FORWARDED,
                )
                &&& final(mem).spec_at(object.spec_value()) == copy_to.spec_value()
                &&& (forall|k: int|
                    0 <= k < size_words ==> #[trigger] final(mem).spec_words()[old(mem).spec_index_of(copy_to.spec_value()) + k] == old(mem).spec_words()[old(mem).spec_index_of(object.spec_value()) + k])
                &&& final(queue)@ == old(queue)@.push(copy_to)
            })
        }),
{
    proof {
        space.lemma_word_tables(object.spec_value());
        space.lemma_word_tables(copy_to.spec_value());
        crate::space::lemma_block_bytes_are_words(space.num_blocks as int);
        assert(fwd.in_range(object.spec_value()));
        assert(fwd.in_range(copy_to.spec_value()));
        assert(mem.in_heap(object.spec_value()));
        assert(mem.in_heap(copy_to.spec_value()));
    }
    let forwarding_status = attempt_to_forward(fwd, object);
    if state_is_forwarded_or_being_forwarded(forwarding_status) {
        return spin_and_get_forwarded_object(fwd, mem, object, forwarding_status);
    }
    if space.mark_bit(object) {
        clear_forwarding_bits(fwd, object);
        proof {
            assert(final(fwd).spec_bytes() =~= old(fwd).spec_bytes().update(
                old(fwd).spec_index_of(object.spec_value()),
                FORWARDING_NOT_TRIGGERED_YET,
            ));
        }
        return object;
    }
    if pinned || space_exhausted {
        space.attempt_mark(object);
        clear_forwarding_bits(fwd, object);
        let block = Block::containing(object);
        proof {
            crate::block::lemma_containing_in_space(
                object.spec_value(),
                space.spec_base(),
                space.num_blocks as int,
            );
            space.lemma_block_tables(block, 0);
            space.lemma_block_index_of_inner(object.spec_value());
        }
        let ghost pre: ImmixSpace = *space;
        proof {
            crate::space::lemma_free_exact_congruence(*old(space), pre);
        }
        block.set_state(&mut space.block_states, BlockState::Marked);
        proof {
            crate::space::lemma_free_exact_after_restate(
                pre,
                *space,
                pre.spec_block_index(block),
            );
            assert(final(fwd).spec_bytes() =~= old(fwd).spec_bytes().update(
                old(fwd).spec_index_of(object.spec_value()),
                FORWARDING_NOT_TRIGGERED_YET,
            ));
            lemma_size_within_end(*space, object, size_words);
        }
        let ghost pre_marked: ImmixSpace = *space;
        space.mark_lines(object, size_words);
        proof {
            crate::space::lemma_free_exact_congruence(pre_marked, *space);
        }
        return object;
    }
    let new_object = forward_object(fwd, mem, object, copy_to, size_words);
    space.attempt_mark(new_object);
    proof {
        lemma_size_within_end(*space, copy_to, size_words);
    }
    space.mark_lines(new_object, size_words);
    queue.push(new_object);
    proof {
        crate::space::lemma_free_exact_congruence(*old(space), *space);
    }
    new_object
}

/// One edge of the forwarding closure: unlog the edge unless it is a
/// root, and when its target was moved, rewrite the slot through the
/// target's forwarding pointer. A null or unmoved target leaves the
/// slot's value as it was.
pub fn forward_edge(
    space: &mut ImmixSpace,
    fwd: &ByteTable,
    mem: &mut HeapMemory,
    slot: Address,
    root: bool,
) -> (rewritten: bool)
    requires
        old(space).wf(),
        old(space).in_space_pos(slot.spec_usize()),
        fwd.wf(),
        fwd.spec_unit() == 8,
        fwd.spec_base() == old(space).spec_base(),
        fwd.spec_bytes().len() == old(space).num_blocks * crate::WORDS_IN_BLOCK,
        old(mem).wf(),
        old(mem).spec_base() == old(space).spec_base(),
        old(mem).spec_words().len() == old(space).num_blocks * crate::WORDS_IN_BLOCK,
    ensures
        final(space).wf(),
        final(mem).wf(),
        *final(space) == (ImmixSpace { unlog_bits: final(space).unlog_bits, ..*old(space) }),
        root ==> final(space).unlog_bits == old(space).unlog_bits,
        !root ==> final(space).unlog_bits.spec_bytes() == old(
            space,
        ).unlog_bits.spec_bytes().update(
            old(space).unlog_bits.spec_index_of(slot.spec_usize()),
            crate::barrier::UNLOGGED_VALUE,
        ),
        ({
            let target = old(mem).spec_at(slot.spec_usize());
            let moved = target != 0 && old(space).in_space_pos(target as int) && fwd.spec_at(
                target as int,
            ) == FORWARDED;
            &&& rewritten == moved
            &&& (moved ==> final(mem).spec_words() == old(mem).spec_words().update(
                old(mem).spec_index_of(slot.spec_usize()),
                old(mem).spec_at(target as int),
            ))
            &&& (!moved ==> *final(mem) == *old(mem))
        }),
{
    proof {
        space.lemma_word_tables(slot.spec_usize());
        crate::space::lemma_block_bytes_are_words(space.num_blocks as int);
    }
    if !root {
        space.unlog_bits.store(slot, crate::barrier::UNLOGGED_VALUE);
    }
    let target = mem.load_reference(slot);
    if target.is_null() {
        return false;
    }
    let taddr = target.value();
    let in_space = taddr % 8 == 0 && taddr >= space.base.as_usize() && taddr
        - space.base.as_usize() < space.num_blocks * crate::BYTES_IN_BLOCK;
    if !in_space {
        return false;
    }
    proof {
        space.lemma_word_tables(target.spec_value());
    }
    if is_forwarded(fwd, target) {
        let new_target = read_forwarding_pointer(fwd, mem, target);
        mem.store(slot, new_target.value());
        return true;
    }
    false
}

/// A word range that fits the word table fits below the space's end.
pub proof fn lemma_size_within_end(space: ImmixSpace, o: ObjectReference, size_words: usize)
    requires
        space.wf(),
        space.in_space(o),
        (o.spec_value() - space.spec_base()) / 8 + size_words <= space.num_blocks
            * crate::WORDS_IN_BLOCK,
    ensures
        o.spec_value() + size_words * 8 <= space.spec_end(),
{
    let base = space.spec_base();
    let pos = o.spec_value();
    crate::meta::lemma_index_bounds(
        pos,
        base,
        8,
        (space.num_blocks * crate::WORDS_IN_BLOCK) as int,
    );
    let i0 = (pos - base) / 8;
    assert(base + i0 * 8 == pos);
    assert((i0 + size_words) * 8 == i0 * 8 + size_words * 8) by {
        vstd::arithmetic::mul::lemma_mul_is_distributive_add_other_way(
            8,
            i0,
            size_words as int,
        );
    }
    assert((i0 + size_words) * 8 <= space.num_blocks * crate::WORDS_IN_BLOCK * 8) by {
        vstd::arithmetic::mul::lemma_mul_inequality(
            i0 + size_words,
            space.num_blocks * (crate::WORDS_IN_BLOCK as int),
            8,
        );
        vstd::arithmetic::mul::lemma_mul_is_commutative(i0 + size_words, 8);
        vstd::arithmetic::mul::lemma_mul_is_commutative(
            space.num_blocks * (crate::WORDS_IN_BLOCK as int),
            8,
        );
    }
    assert(space.num_blocks * (crate::WORDS_IN_BLOCK as int) * 8 == space.num_blocks
        * (crate::BYTES_IN_BLOCK as int)) by {
        vstd::arithmetic::mul::lemma_mul_is_associative(
            space.num_blocks as int,
            crate::WORDS_IN_BLOCK as int,
            8,
        );
    }
}

} // verus!
