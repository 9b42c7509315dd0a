//! Straddle bits through an object's life: set at promotion, honored
//! by hole search, cleared at death.

use lxr::address::{Address, ObjectReference};
use lxr::line::Line;
use lxr::memory::HeapMemory;
use lxr::predictor::SurvivalRatioPredictorLocal;
use lxr::rcwork::{ObjectLayout, ProcessDecs, ProcessIncs, EDGE_KIND_NURSERY};
use lxr::scheduler::GCWorkScheduler;
use lxr::space::ImmixSpace;
use lxr::{BYTES_IN_LINE, WORDS_IN_BLOCK};

const BASE: usize = 0x1000_0000;

fn obj(at: usize) -> ObjectReference {
    Address::from_usize(at).to_object_reference()
}

/// A promoted object spanning several lines marks every tail line as
/// straddled; the count-based hole search then refuses those lines even
/// though their own words carry no counts, and clearing the bits at the
/// object's death hands them out again.
#[test]
fn straddle_bits_guard_tail_lines() {
    let mut space = ImmixSpace::new(Address::from_usize(BASE), 2);
    let mut mem = HeapMemory::new(Address::from_usize(BASE), 2 * WORDS_IN_BLOCK);
    let mut sched = GCWorkScheduler::new(1);
    let mut predictor = SurvivalRatioPredictorLocal::new();

    // An object starting mid-line 2 and running through line 5: 3.5
    // lines of words, counted only at its header.
    let o = obj(BASE + 2 * BYTES_IN_LINE + 128);
    let size_words = (3 * BYTES_IN_LINE + 128) / 8;
    let layout = ObjectLayout { start: o, size_words, field_offsets: vec![] };
    space.rc.inc(o).unwrap();
    let mut incs = ProcessIncs::new(vec![], EDGE_KIND_NURSERY);
    incs.promote(&mut space, &mem, &mut predictor, o, &layout);
    for li in 3..6 {
        let line = Address::from_usize(BASE + li * BYTES_IN_LINE);
        assert_eq!(space.straddle_lines.load(line), 1);
    }
    assert_eq!(space.straddle_lines.load(Address::from_usize(BASE + 2 * BYTES_IN_LINE)), 0);

    // Only line 2 carries a count, yet the search must treat lines 3..6
    // as occupied: the first free line is 6, the skip lands on 7.
    let search = Line::from(Address::from_usize(BASE));
    let (lo, _hi) = space.rc_get_next_available_lines(search).unwrap();
    assert_eq!(lo.start().as_usize(), BASE + 1 * BYTES_IN_LINE);
    // Searching from line 2 onwards: 3..6 straddled, so the run starts
    // after the conservative skip above line 6.
    let search2 = Line::from(Address::from_usize(BASE + 2 * BYTES_IN_LINE));
    let (lo2, _hi2) = space.rc_get_next_available_lines(search2).unwrap();
    assert_eq!(lo2.start().as_usize(), BASE + 7 * BYTES_IN_LINE);

    // Death clears the straddle bits and the tail lines open up.
    let mut decs = ProcessDecs::new(vec![o]);
    decs.process_dec(&mut space, &mut mem, &mut sched, true, o, &layout);
    assert_eq!(space.rc.count(o), 0);
    for li in 3..6 {
        let line = Address::from_usize(BASE + li * BYTES_IN_LINE);
        assert_eq!(space.straddle_lines.load(line), 0);
    }
    // The header line died too, so the free run now starts right at
    // line 2, and the conservative skip hands out line 3.
    let (lo3, _hi3) = space.rc_get_next_available_lines(search2).unwrap();
    assert_eq!(lo3.start().as_usize(), BASE + 3 * BYTES_IN_LINE);
}

/// A recursive decrement that fills the buffer drains it into a fresh
/// decrement packet, leaving the buffer under capacity.
#[test]
fn recursive_decs_flush_at_capacity() {
    let mut sched = GCWorkScheduler::new(1);
    let mut decs = ProcessDecs::new(vec![]);
    let capacity = lxr::queue::BUFFER_CAPACITY;
    for k in 0..capacity {
        decs.recursive_dec(&mut sched, true, obj(BASE + 8 * (k + 1)));
        assert!(decs.new_decs.len() < capacity);
    }
    // The capacity-filling push emitted exactly one packet.
    assert_eq!(sched.buckets[0].queue.len(), 1);
    assert_eq!(decs.new_decs.len(), 0);
    match sched.buckets[0].poll().unwrap() {
        lxr::scheduler::WorkPacket::ProcessDecs { objects } => {
            assert_eq!(objects.len(), capacity)
        }
        other => panic!("unexpected packet {:?}", other),
    }
    // Outside a pause the drain goes to the prioritized queue.
    let mut lazy = ProcessDecs::new(vec![]);
    for k in 0..capacity {
        lazy.recursive_dec(&mut sched, false, obj(BASE + 8 * (k + 1)));
    }
    assert_eq!(sched.buckets[0].prioritized_queue.len(), 1);
}
