use regatelisp::capture::CaptureList;
use regatelisp::ids::{CaptureSlot, LocalSlot};

#[test]
fn capturing_the_same_local_twice_reuses_the_slot() {
    let mut list = CaptureList::default();
    let a = list.capture_local(LocalSlot(0));
    let b = list.capture_local(LocalSlot(0));
    assert_eq!(a, b);
    assert_eq!(list.len(), 1);
}

#[test]
fn capturing_different_locals_gets_distinct_slots_in_order() {
    let mut list = CaptureList::default();
    let a = list.capture_local(LocalSlot(2));
    let b = list.capture_local(LocalSlot(5));
    assert_eq!(a, CaptureSlot(0));
    assert_eq!(b, CaptureSlot(1));
}

#[test]
fn captures_of_captures_are_kept_apart_from_captures_of_locals() {
    let mut list = CaptureList::default();
    let a = list.capture_local(LocalSlot(0));
    let b = list.capture_capture(CaptureSlot(0));
    assert_ne!(a, b);
    assert_eq!(list.len(), 2);
}
