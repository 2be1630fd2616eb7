use cmpth::resumable::common::waker::{
    decide_park, is_ever_shared, mark_idle, mark_polling, park_after_poll, transition_to_shared,
    try_wake_state, WakeOutcome, EVER_SHARED, IDLE, NOTIFIED, PARKED, POLLING,
};

#[test]
fn a_wake_during_a_poll_cancels_the_park() {
    let mut w = IDLE;
    mark_polling(&mut w);
    assert_eq!(try_wake_state(&mut w), WakeOutcome::SetNotified);
    assert_eq!(w, NOTIFIED);
    assert_eq!(try_wake_state(&mut w), WakeOutcome::NoOp);
    assert!(!decide_park(&mut w));
    assert_eq!(w, POLLING);
}

#[test]
fn a_parked_task_is_claimed_once() {
    let mut w = POLLING;
    assert!(park_after_poll(&mut w));
    assert_eq!(w, PARKED);
    assert_eq!(try_wake_state(&mut w), WakeOutcome::ClaimedParked);
    assert_eq!(w, POLLING);
    assert_eq!(try_wake_state(&mut w), WakeOutcome::SetNotified);
}

#[test]
fn a_stale_wake_changes_nothing() {
    let mut w = POLLING;
    mark_idle(&mut w);
    assert_eq!(try_wake_state(&mut w), WakeOutcome::NoOp);
    assert_eq!(w, IDLE);
}

#[test]
fn the_clone_mark_survives_parks_and_wakes() {
    let mut w = POLLING;
    assert!(!is_ever_shared(w));
    transition_to_shared(&mut w);
    assert_eq!(w, EVER_SHARED | POLLING);
    assert!(decide_park(&mut w));
    assert_eq!(try_wake_state(&mut w), WakeOutcome::ClaimedParked);
    assert_eq!(try_wake_state(&mut w), WakeOutcome::SetNotified);
    assert!(is_ever_shared(w));
    transition_to_shared(&mut w);
    assert_eq!(w, EVER_SHARED | NOTIFIED);
    let mut other = 0x7654_3210 | PARKED;
    transition_to_shared(&mut other);
    assert_eq!(other, EVER_SHARED | 0x7654_3210 | PARKED);
}
