use cmpth::future::{YieldNow, YieldPoll};
use cmpth::os::{
    OsConsumerStep, OsDelegation, OsDelegator, OsSuspendedThread, OsSystem, OsTls, OsTlsSlots,
    SlotAssignment, OS_TLS_MAX_SLOTS,
};

#[test]
fn the_system_below_has_no_numbered_workers() {
    assert_eq!(OsSystem::worker_num(), 0);
    assert_eq!(OsSystem::num_workers(Some(8)), 8);
    assert_eq!(OsSystem::num_workers(None), 1);
}

#[test]
fn slots_are_drawn_once_each() {
    let mut next = 0;
    let mut a: OsTls<u8> = OsTls::new();
    let mut b: OsTls<u8> = OsTls::new();
    assert_eq!(a.assign_slot(&mut next), SlotAssignment::Slot(0));
    assert_eq!(b.assign_slot(&mut next), SlotAssignment::Slot(1));
    assert_eq!(a.assign_slot(&mut next), SlotAssignment::Slot(0));
    assert_eq!(next, 2);
    let mut thread = OsTlsSlots::new();
    assert_eq!(a.get(&thread), 0);
    a.set(&mut thread, 0x80);
    assert_eq!(a.get(&thread), 0x80);
    assert_eq!(b.get(&thread), 0);
}

#[test]
fn there_are_only_so_many_slots() {
    let mut next = 0;
    for i in 0..OS_TLS_MAX_SLOTS {
        let mut s: OsTls<u8> = OsTls::new();
        assert_eq!(s.assign_slot(&mut next), SlotAssignment::Slot(i));
    }
    let mut s: OsTls<u8> = OsTls::new();
    assert_eq!(s.assign_slot(&mut next), SlotAssignment::TooManySlots);
    assert_eq!(next, 17);
}

#[test]
fn a_thread_goes_on_only_when_told() {
    let mut s = OsSuspendedThread::new();
    assert!(!s.notify());
    s.wait_with();
    assert!(!s.try_leave());
    assert!(s.notify());
    assert!(s.try_leave());
    assert!(!s.try_leave());
}

#[test]
fn delegated_work_is_served_in_order() {
    let mut d: OsDelegator<u32> = OsDelegator::start();
    assert!(matches!(d.consumer_loop(false), OsConsumerStep::Wait));
    assert_eq!(d.execute_or_delegate(), OsDelegation::Delegate);
    d.delegate(1);
    d.delegate(2);
    assert!(matches!(d.consumer_loop(true), OsConsumerStep::Execute(1, _)));
    d.stop();
    assert!(matches!(d.consumer_loop(true), OsConsumerStep::Execute(2, _)));
    assert!(matches!(d.consumer_loop(true), OsConsumerStep::Exit));
}

#[test]
fn an_unlocked_delegator_executes_in_place() {
    let mut d: OsDelegator<u32> = OsDelegator::start();
    d.executed(false);
    assert!(matches!(d.consumer_loop(true), OsConsumerStep::Progress));
    assert!(matches!(d.consumer_loop(false), OsConsumerStep::Released));
    assert_eq!(d.execute_or_delegate(), OsDelegation::Immediate);
    assert_eq!(d.execute_or_delegate(), OsDelegation::Delegate);
    d.executed(true);
    assert_eq!(d.execute_or_delegate(), OsDelegation::Delegate);
    d.executed(false);
    assert_eq!(d.execute_or_delegate(), OsDelegation::Immediate);
}

#[test]
fn yielding_takes_one_poll() {
    let mut y = YieldNow::yield_now();
    assert_eq!(y.poll(), YieldPoll::WakeAndPend);
    assert_eq!(y.poll(), YieldPoll::Ready);
    assert_eq!(y.poll(), YieldPoll::Ready);
}
