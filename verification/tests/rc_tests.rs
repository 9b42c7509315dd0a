//! Reference-count lifecycle: promotion, saturation, and reset.

use lxr::address::Address;
use lxr::rc::{RefCounts, MAX_REF_COUNT};

const BASE: usize = 0x1000_0000;

fn obj(at: usize) -> lxr::address::ObjectReference {
    Address::from_usize(at).to_object_reference()
}

#[test]
fn promotion_increment_is_the_first() {
    let mut rc = RefCounts::new(Address::from_usize(BASE), 64);
    let x = obj(BASE + 8);
    assert_eq!(rc.count(x), 0);
    assert_eq!(rc.inc(x), Ok(0));
    assert_eq!(rc.count(x), 1);
    assert_eq!(rc.inc(x), Ok(1));
    assert_eq!(rc.count(x), 2);
}

#[test]
fn inc_then_dec_is_a_no_op() {
    let mut rc = RefCounts::new(Address::from_usize(BASE), 64);
    let x = obj(BASE + 16);
    rc.inc(x).unwrap();
    rc.inc(x).unwrap();
    assert_eq!(rc.count(x), 2);
    rc.inc(x).unwrap();
    rc.dec(x).unwrap();
    assert_eq!(rc.count(x), 2);
}

#[test]
fn stuck_counter() {
    let mut rc = RefCounts::new(Address::from_usize(BASE), 64);
    let x = obj(BASE);
    for k in 0..16 {
        let r = rc.inc(x);
        if k < 15 {
            assert_eq!(r, Ok(k as u8));
        } else {
            assert_eq!(r, Err(MAX_REF_COUNT));
        }
    }
    assert_eq!(rc.count(x), MAX_REF_COUNT);
    for _ in 0..16 {
        assert_eq!(rc.dec(x), Err(MAX_REF_COUNT));
    }
    assert_eq!(rc.count(x), MAX_REF_COUNT);
    assert!(rc.is_stuck(x));
    rc.reset(x);
    assert_eq!(rc.count(x), 0);
    assert!(rc.is_dead(x));
}

#[test]
fn dec_reports_death_exactly_at_one() {
    let mut rc = RefCounts::new(Address::from_usize(BASE), 64);
    let x = obj(BASE + 24);
    rc.inc(x).unwrap();
    rc.inc(x).unwrap();
    assert_eq!(rc.dec(x), Ok(2));
    assert_eq!(rc.dec(x), Ok(1));
    assert!(rc.is_dead(x));
    assert_eq!(rc.dec(x), Err(0));
}
