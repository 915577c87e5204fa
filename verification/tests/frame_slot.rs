use rustdesk::frame_slot::{put_into, should_wait, take_from, FrameSlot};
use std::time::{Duration, Instant};

#[test]
fn take_returns_frame_put_before() {
    let slot = FrameSlot::new();
    slot.put(1u32);
    assert_eq!(slot.take(Duration::ZERO), Some(1));
}

#[test]
fn take_on_empty_slot_times_out_with_none() {
    let slot: FrameSlot<u32> = FrameSlot::new();
    let t = Instant::now();
    assert_eq!(slot.take(Duration::from_millis(30)), None);
    let waited = t.elapsed();
    assert!(waited >= Duration::from_millis(30), "returned early: {:?}", waited);
    assert!(waited < Duration::from_millis(500), "waited far too long: {:?}", waited);
}

#[test]
fn zero_timeout_on_empty_slot_returns_immediately() {
    let slot: FrameSlot<u32> = FrameSlot::new();
    let t = Instant::now();
    assert_eq!(slot.take(Duration::ZERO), None);
    assert!(t.elapsed() < Duration::from_millis(50));
}

#[test]
fn put_replaces_an_unconsumed_frame_with_the_newer_one() {
    let slot = FrameSlot::new();
    slot.put(1u32);
    slot.put(2u32);
    assert_eq!(slot.take(Duration::ZERO), Some(2));
    assert_eq!(slot.take(Duration::ZERO), None, "slot must be empty after take");
}

#[test]
fn waiting_take_returns_a_frame_that_is_already_there_at_once() {
    let slot = FrameSlot::new();
    slot.put(7u32);
    let t = Instant::now();
    assert_eq!(slot.take(Duration::from_secs(2)), Some(7));
    assert!(t.elapsed() < Duration::from_millis(500));
}

#[test]
fn frames_of_any_type_pass_through() {
    let slot = FrameSlot::new();
    slot.put(vec![1u8, 2, 3]);
    assert_eq!(slot.take(Duration::from_millis(10)), Some(vec![1u8, 2, 3]));
    assert_eq!(slot.take(Duration::ZERO), None);
}

#[test]
fn put_into_replaces_and_take_from_empties() {
    let mut slot: Option<u32> = None;
    assert_eq!(take_from(&mut slot), None);
    put_into(&mut slot, 1);
    put_into(&mut slot, 2);
    assert_eq!(slot, Some(2));
    assert_eq!(take_from(&mut slot), Some(2));
    assert_eq!(slot, None);
    assert_eq!(take_from(&mut slot), None);
}

#[test]
fn waits_only_for_an_empty_slot_and_a_nonzero_timeout() {
    assert!(should_wait(true, false));
    assert!(!should_wait(true, true));
    assert!(!should_wait(false, false));
    assert!(!should_wait(false, true));
}
