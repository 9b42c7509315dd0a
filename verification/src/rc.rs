//! Per-object reference counts.
//!
//! Each object carries a four-bit saturating counter, one per eight-byte
//! word, held in a side table. Zero means dead (or nursery before the
//! first increment); the saturated value is sticky and the object is
//! then reclaimed only by a backup trace.

use vstd::prelude::*;

verus! {

use crate::address::Address;
use crate::address::ObjectReference;

/// The saturation value of a reference count.
pub const MAX_REF_COUNT: u8 = 15;

/// The count after an increment: one more, unless saturated.
pub open spec fn rc_inc_value(v: u8) -> u8 {
    if v == MAX_REF_COUNT {
        v
    } else {
        (v + 1) as u8
    }
}

/// The count after a decrement: one less, unless dead or saturated.
pub open spec fn rc_dec_value(v: u8) -> u8 {
    if v == 0 || v == MAX_REF_COUNT {
        v
    } else {
        (v - 1) as u8
    }
}

/// The side table of reference counts for a heap starting at `base`,
/// one count per eight-byte word.
pub struct RefCounts {
    base: Address,
    counts: Vec<u8>,
}

impl RefCounts {
    /// The heap start this table covers.
    pub closed spec fn spec_base(self) -> int {
        self.base.spec_usize()
    }

    /// The counts, by word index from the heap start.
    pub closed spec fn spec_counts(self) -> Seq<u8> {
        self.counts@
    }

    /// Well-formed: a word-aligned, non-null base, a heap that fits in
    /// the address space, and every count at or below the saturation value.
    pub open spec fn wf(self) -> bool {
        &&& self.spec_base() % 8 == 0
        &&& self.spec_base() > 0
        &&& self.spec_base() + self.spec_counts().len() * 8 <= usize::MAX
        &&& forall|i: int|
            0 <= i < self.spec_counts().len() ==> self.spec_counts()[i] <= MAX_REF_COUNT
    }

    /// The word index of a heap position.
    pub open spec fn spec_index_of_pos(self, pos: int) -> int {
        (pos - self.spec_base()) / 8
    }

    /// The word index of an object reference.
    pub open spec fn spec_index_of(self, o: ObjectReference) -> int {
        self.spec_index_of_pos(o.spec_value())
    }

    /// Whether a heap position falls on a word of this heap.
    pub open spec fn in_heap_pos(self, pos: int) -> bool {
        &&& self.spec_base() <= pos
        &&& pos < self.spec_base() + self.spec_counts().len() * 8
        &&& pos % 8 == 0
    }

    /// Whether an object reference falls on a word of this heap.
    pub open spec fn in_heap(self, o: ObjectReference) -> bool {
        self.in_heap_pos(o.spec_value())
    }

    /// The count recorded for an object.
    pub open spec fn spec_count(self, o: ObjectReference) -> u8 {
        self.spec_counts()[self.spec_index_of(o)]
    }

    /// An in-heap position indexes inside the table.
    pub proof fn lemma_pos_in_range(self, pos: int)
        requires
            self.wf(),
            self.in_heap_pos(pos),
        ensures
            0 <= self.spec_index_of_pos(pos) < self.spec_counts().len(),
            self.spec_base() + self.spec_index_of_pos(pos) * 8 == pos,
    {
        crate::meta::lemma_index_bounds(
            pos,
            self.spec_base(),
            8,
            self.spec_counts().len() as int,
        );
    }

    /// An in-heap reference indexes inside the table.
    pub proof fn lemma_index_in_range(self, o: ObjectReference)
        requires
            self.wf(),
            self.in_heap(o),
        ensures
            0 <= self.spec_index_of(o) < self.spec_counts().len(),
            self.spec_index_of(o) == (o.spec_value() - self.spec_base()) / 8,
    {
        self.lemma_pos_in_range(o.spec_value());
    }

    /// A fresh table of all-zero counts over `num_words` words.
    pub fn new(base: Address, num_words: usize) -> (r: RefCounts)
        requires
            base.spec_usize() % 8 == 0,
            base.spec_usize() > 0,
            base.spec_usize() + num_words * 8 <= usize::MAX,
        ensures
            r.wf(),
            r.spec_base() == base.spec_usize(),
            r.spec_counts().len() == num_words,
            forall|i: int| 0 <= i < num_words ==> r.spec_counts()[i] == 0,
    {
        let mut counts: Vec<u8> = Vec::new();
        let mut i: usize = 0;
        while i < num_words
            invariant
                i <= num_words,
                counts@.len() == i,
                forall|j: int| 0 <= j < i ==> counts@[j] == 0,
            decreases num_words - i,
        {
            counts.push(0);
            i = i + 1;
        }
        RefCounts { base, counts }
    }

    /// The exec word index of an in-heap reference.
    fn index_of(&self, o: ObjectReference) -> (r: usize)
        requires
            self.wf(),
            self.in_heap(o),
        ensures
            r == self.spec_index_of(o),
            r < self.spec_counts().len(),
    {
        proof {
            self.lemma_index_in_range(o);
        }
        o.to_address().get_extent(self.base) / 8
    }

    /// The current count of an object.
    pub fn count(&self, o: ObjectReference) -> (r: u8)
        requires
            self.wf(),
            self.in_heap(o),
        ensures
            r == self.spec_count(o),
    {
        let i = self.index_of(o);
        self.counts[i]
    }

    /// Whether the object's count is zero.
    pub fn is_dead(&self, o: ObjectReference) -> (r: bool)
        requires
            self.wf(),
            self.in_heap(o),
        ensures
            r == (self.spec_count(o) == 0),
    {
        self.count(o) == 0
    }

    /// Whether the object's count has saturated.
    pub fn is_stuck(&self, o: ObjectReference) -> (r: bool)
        requires
            self.wf(),
            self.in_heap(o),
        ensures
            r == (self.spec_count(o) == MAX_REF_COUNT),
    {
        self.count(o) == MAX_REF_COUNT
    }

    /// Whether the object is dead or its count has saturated.
    pub fn is_dead_or_stuck(&self, o: ObjectReference) -> (r: bool)
        requires
            self.wf(),
            self.in_heap(o),
        ensures
            r == (self.spec_count(o) == 0 || self.spec_count(o) == MAX_REF_COUNT),
    {
        let c = self.count(o);
        c == 0 || c == MAX_REF_COUNT
    }

    /// Increment the object's count, saturating: a saturated count is
    /// left as it is and reported as `Err`. `Ok(0)` is returned exactly
    /// on the promotion increment, the one that raises the count from zero.
    pub fn inc(&mut self, o: ObjectReference) -> (r: Result<u8, u8>)
        requires
            old(self).wf(),
            old(self).in_heap(o),
        ensures
            final(self).wf(),
            final(self).spec_base() == old(self).spec_base(),
            final(self).spec_counts() == old(self).spec_counts().update(
                old(self).spec_index_of(o),
                rc_inc_value(old(self).spec_count(o)),
            ),
            old(self).spec_count(o) == MAX_REF_COUNT ==> r == Err::<u8, u8>(MAX_REF_COUNT),
            old(self).spec_count(o) < MAX_REF_COUNT ==> r == Ok::<u8, u8>(
                old(self).spec_count(o),
            ),
            r == Ok::<u8, u8>(0u8) <==> old(self).spec_count(o) == 0,
    {
        let i = self.index_of(o);
        let v = self.counts[i];
        if v == MAX_REF_COUNT {
            proof {
                assert(final(self).spec_counts() =~= old(self).spec_counts().update(
                    old(self).spec_index_of(o),
                    rc_inc_value(old(self).spec_count(o)),
                ));
            }
            Err(v)
        } else {
            self.counts.set(i, v + 1);
            Ok(v)
        }
    }

    /// Decrement the object's count: a zero or saturated count is left as
    /// it is and reported as `Err`. `Ok(1)` is returned exactly when this
    /// decrement made the object dead.
    pub fn dec(&mut self, o: ObjectReference) -> (r: Result<u8, u8>)
        requires
            old(self).wf(),
            old(self).in_heap(o),
        ensures
            final(self).wf(),
            final(self).spec_base() == old(self).spec_base(),
            final(self).spec_counts() == old(self).spec_counts().update(
                old(self).spec_index_of(o),
                rc_dec_value(old(self).spec_count(o)),
            ),
            (old(self).spec_count(o) == 0 || old(self).spec_count(o) == MAX_REF_COUNT) ==> r
                == Err::<u8, u8>(old(self).spec_count(o)),
            (0 < old(self).spec_count(o) < MAX_REF_COUNT) ==> r == Ok::<u8, u8>(
                old(self).spec_count(o),
            ),
            r == Ok::<u8, u8>(1u8) <==> (old(self).spec_count(o) == 1
                && final(self).spec_count(o) == 0),
    {
        let i = self.index_of(o);
        let v = self.counts[i];
        if v == 0 || v == MAX_REF_COUNT {
            proof {
                assert(final(self).spec_counts() =~= old(self).spec_counts().update(
                    old(self).spec_index_of(o),
                    rc_dec_value(old(self).spec_count(o)),
                ));
            }
            Err(v)
        } else {
            self.counts.set(i, v - 1);
            Ok(v)
        }
    }

    /// Clear the object's count to zero, as the backup trace does when it
    /// reclaims a dead object.
    pub fn reset(&mut self, o: ObjectReference)
        requires
            old(self).wf(),
            old(self).in_heap(o),
        ensures
            final(self).wf(),
            final(self).spec_base() == old(self).spec_base(),
            final(self).spec_counts() == old(self).spec_counts().update(
                old(self).spec_index_of(o),
                0u8,
            ),
    {
        let i = self.index_of(o);
        self.counts.set(i, 0);
    }

    /// Overwrite the object's count, as mature evacuation does when it
    /// transfers a count onto a copy.
    pub fn set(&mut self, o: ObjectReference, v: u8)
        requires
            old(self).wf(),
            old(self).in_heap(o),
            v <= MAX_REF_COUNT,
        ensures
            final(self).wf(),
            final(self).spec_base() == old(self).spec_base(),
            final(self).spec_counts() == old(self).spec_counts().update(
                old(self).spec_index_of(o),
                v,
            ),
    {
        let i = self.index_of(o);
        self.counts.set(i, v);
    }
    /// Whether the `n` words starting at `start` all have a zero count.
    pub fn words_dead(&self, start: Address, n: usize) -> (r: bool)
        requires
            self.wf(),
            self.in_heap_pos(start.spec_usize()),
            self.spec_index_of_pos(start.spec_usize()) + n <= self.spec_counts().len(),
        ensures
            r <==> forall|k: int|
                self.spec_index_of_pos(start.spec_usize()) <= k < self.spec_index_of_pos(
                    start.spec_usize(),
                ) + n ==> self.spec_counts()[k] == 0,
    {
        proof {
            self.lemma_pos_in_range(start.spec_usize());
        }
        let i0: usize = start.get_extent(self.base) / 8;
        let mut k: usize = 0;
        while k < n
            invariant
                k <= n,
                self.wf(),
                i0 == self.spec_index_of_pos(start.spec_usize()),
                i0 + n <= self.spec_counts().len(),
                forall|j: int| i0 <= j < i0 + k ==> self.spec_counts()[j] == 0,
            decreases n - k,
        {
            if self.counts[i0 + k] != 0 {
                return false;
            }
            k = k + 1;
        }
        true
    }

    /// Clear the counts of the `n` words starting at `start`, as block
    /// reset does for a freshly handed-out block.
    pub fn clear_words(&mut self, start: Address, n: usize)
        requires
            old(self).wf(),
            old(self).in_heap_pos(start.spec_usize()),
            old(self).spec_index_of_pos(start.spec_usize()) + n <= old(self).spec_counts().len(),
        ensures
            final(self).wf(),
            final(self).spec_base() == old(self).spec_base(),
            final(self).spec_counts().len() == old(self).spec_counts().len(),
            forall|j: int|
                old(self).spec_index_of_pos(start.spec_usize()) <= j < old(self).spec_index_of_pos(
                    start.spec_usize(),
                ) + n ==> final(self).spec_counts()[j] == 0,
            forall|j: int|
                0 <= j < old(self).spec_counts().len() && !(old(self).spec_index_of_pos(
                    start.spec_usize(),
                ) <= j < old(self).spec_index_of_pos(start.spec_usize()) + n) ==> final(self).spec_counts()[j] == old(self).spec_counts()[j],
    {
        proof {
            self.lemma_pos_in_range(start.spec_usize());
        }
        let i0: usize = start.get_extent(self.base) / 8;
        let cap: usize = self.counts.len();
        let mut k: usize = 0;
        while k < n
            invariant
                k <= n,
                self.counts@.len() == cap,
                cap == old(self).spec_counts().len(),
                self.base == old(self).base,
                self.spec_base() == old(self).spec_base(),
                old(self).wf(),
                i0 == old(self).spec_index_of_pos(start.spec_usize()),
                i0 + n <= cap,
                forall|j: int| i0 <= j < i0 + k ==> self.counts@[j] == 0,
                forall|j: int|
                    0 <= j < cap && !(i0 <= j < i0 + k) ==> self.counts@[j] == old(self).spec_counts()[j],
            decreases n - k,
        {
            let idx: usize = i0 + k;
            self.counts.set(idx, 0);
            k = k + 1;
        }
        proof {
            assert forall|j: int|
                0 <= j < self.counts@.len() implies self.counts@[j] <= MAX_REF_COUNT by {
                if !(i0 <= j < i0 + n) {
                    assert(self.counts@[j] == old(self).spec_counts()[j]);
                }
            }
        }
    }
}

/// An increment followed by a decrement of the same object leaves every
/// count as it was, unless the increment saturated the counter: then the
/// count stays saturated.
pub proof fn lemma_inc_then_dec_noop(counts: Seq<u8>, i: int)
    requires
        0 <= i < counts.len(),
        counts[i] <= MAX_REF_COUNT,
    ensures
        counts[i] != MAX_REF_COUNT - 1 ==> counts.update(i, rc_inc_value(counts[i])).update(
            i,
            rc_dec_value(rc_inc_value(counts[i])),
        ) =~= counts,
        counts[i] == MAX_REF_COUNT - 1 ==> counts.update(i, rc_inc_value(counts[i])).update(
            i,
            rc_dec_value(rc_inc_value(counts[i])),
        ) =~= counts.update(i, MAX_REF_COUNT),
{
}

/// A saturated count is sticky: a decrement neither changes it nor
/// reports a death, so a stuck object is never freed by the counter.
pub proof fn lemma_stuck_dec_noop(counts: Seq<u8>, i: int)
    requires
        0 <= i < counts.len(),
        counts[i] == MAX_REF_COUNT,
    ensures
        counts.update(i, rc_dec_value(counts[i])) =~= counts,
        rc_dec_value(counts[i]) != 0,
{
}

/// The count an object carries after a sequence of increments (true)
/// and decrements (false), starting from `v`.
pub open spec fn apply_rc_ops(v: u8, ops: Seq<bool>) -> u8
    decreases ops.len(),
{
    if ops.len() == 0 {
        v
    } else {
        apply_rc_ops(
            if ops[0] {
                rc_inc_value(v)
            } else {
                rc_dec_value(v)
            },
            ops.subrange(1, ops.len() as int),
        )
    }
}

/// One more operation at the end applies to the accumulated count.
pub proof fn lemma_apply_rc_ops_snoc(v: u8, ops: Seq<bool>, op: bool)
    ensures
        apply_rc_ops(v, ops.push(op)) == (if op {
            rc_inc_value(apply_rc_ops(v, ops))
        } else {
            rc_dec_value(apply_rc_ops(v, ops))
        }),
    decreases ops.len(),
{
    if ops.len() == 0 {
        assert(ops.push(op)[0] == op);
        assert(ops.push(op).subrange(1, 1) =~= Seq::<bool>::empty());
        assert(apply_rc_ops(v, ops.push(op)) == apply_rc_ops(
            if op {
                rc_inc_value(v)
            } else {
                rc_dec_value(v)
            },
            Seq::<bool>::empty(),
        ));
    } else {
        assert(ops.push(op)[0] == ops[0]);
        assert(ops.push(op).subrange(1, ops.len() as int + 1) =~= ops.subrange(
            1,
            ops.len() as int,
        ).push(op));
        lemma_apply_rc_ops_snoc(
            if ops[0] {
                rc_inc_value(v)
            } else {
                rc_dec_value(v)
            },
            ops.subrange(1, ops.len() as int),
            op,
        );
    }
}

/// An object whose count is not zero was promoted: starting from the
/// zero count of a fresh nursery object, any sequence of increments
/// and decrements that leaves the count nonzero contains a promotion
/// increment, one applied while the count stood at zero.
pub proof fn lemma_nonzero_count_implies_promotion(ops: Seq<bool>)
    requires
        apply_rc_ops(0, ops) != 0,
    ensures
        exists|k: int|
            0 <= k < ops.len() && ops[k] && apply_rc_ops(0, #[trigger] ops.subrange(0, k)) == 0,
    decreases ops.len(),
{
    let n = ops.len() as int;
    let prefix = ops.subrange(0, n - 1);
    assert(ops =~= prefix.push(ops[n - 1]));
    lemma_apply_rc_ops_snoc(0, prefix, ops[n - 1]);
    if apply_rc_ops(0, prefix) == 0 {
        assert(ops[n - 1]);
        assert(apply_rc_ops(0, ops.subrange(0, n - 1)) == 0);
    } else {
        lemma_nonzero_count_implies_promotion(prefix);
        let k = choose|k: int|
            0 <= k < prefix.len() && prefix[k] && apply_rc_ops(
                0,
                #[trigger] prefix.subrange(0, k),
            ) == 0;
        assert(prefix.subrange(0, k) =~= ops.subrange(0, k));
        assert(ops[k] && apply_rc_ops(0, ops.subrange(0, k)) == 0);
    }
}

} // verus!
