use cmpth::interchange::PointerInterchangeable;
use cmpth::resumable::common::desc::SuspendedTaskToken;
use cmpth::resumable::common::sync::dual_barrier::DualBarrier;
use cmpth::resumable::stackful::suspended::{BasicStackfulOnlyResumable, StackfulOnlyResumableCore};
use cmpth::resumable::stackful::sync::barrier::{Barrier, BarrierCore, BarrierStep};
use cmpth::resumable::stackful::sync::delegator::{
    ConsumeEnd, DelegationStep, Delegator, DelegatorConsumer, JoinStep, SyncQueue, UnlockAction,
    WaitAction, WorkItem,
};
use cmpth::resumable::stackful::sync::mcs_mutex::{McsCondvar, McsMutex, McsMutexGuard, UnlockStep};
use cmpth::resumable::stackful::sync::mutex::{
    mutex_lock, mutex_try_lock, mutex_unlock, Condvar, Mutex, MutexCore, MutexGuard,
};
use cmpth::resumable::stackful::sync::ring_delegator::RingBufQueue;

type Slot = BasicStackfulOnlyResumable;

fn t(p: usize) -> SuspendedTaskToken {
    SuspendedTaskToken::from_raw(p)
}

fn addr(mut s: Slot) -> usize {
    s.take_cont().into_ptr()
}

#[test]
fn the_last_to_arrive_leads() {
    let mut b: Barrier<Slot> = Barrier::new(3);
    for round in 0..2 {
        assert!(matches!(b.wait(), BarrierStep::Park));
        b.park(t(8 + round));
        assert!(matches!(b.wait(), BarrierStep::Park));
        b.park(t(16 + round));
        match b.wait() {
            BarrierStep::Lead(ws) => {
                let woken: Vec<usize> = ws.into_iter().map(addr).collect();
                assert_eq!(woken, vec![8 + round, 16 + round]);
            }
            BarrierStep::Park => panic!("the last one parked"),
        }
    }
    assert_eq!(b.n(), 3);
}

#[test]
fn a_barrier_of_one_never_parks() {
    let mut b: DualBarrier<Slot> = DualBarrier::new(1);
    assert!(matches!(b.wait(), BarrierStep::Lead(_)));
    assert!(matches!(b.wait(), BarrierStep::Lead(_)));
}

#[test]
fn mutexes_are_handed_over_in_order() {
    let mut m: Mutex<Slot, u64> = Mutex::new_core(5);
    let g = mutex_lock(m.state()).unwrap();
    assert!(mutex_try_lock(m.state()).is_none());
    assert!(mutex_lock(m.state()).is_none());
    m.state().park(t(8));
    assert!(mutex_lock(m.state()).is_none());
    m.state().park(t(16));
    *g.deref_mut::<Slot, Mutex<Slot, u64>>(&mut m) += 1;
    let (w, handed) = mutex_unlock(m.state(), g).unwrap();
    assert_eq!(addr(w), 8);
    assert!(mutex_try_lock(m.state()).is_none());
    let g = MutexGuard::resumed(handed);
    let (w, handed) = mutex_unlock(m.state(), g).unwrap();
    assert_eq!(addr(w), 16);
    let g = MutexGuard::resumed(handed);
    assert!(mutex_unlock(m.state(), g).is_none());
    let g = mutex_try_lock(m.state()).unwrap();
    assert_eq!(*g.deref_mut::<Slot, Mutex<Slot, u64>>(&mut m), 6);
}

#[test]
fn condition_variables_wake_in_order() {
    let mut m: Mutex<Slot, ()> = Mutex::new_core(());
    let mut c: Condvar<Slot> = Condvar::new();
    assert!(c.notify_one().is_none());
    let g = mutex_lock(m.state()).unwrap();
    assert!(c.wait(m.state(), g, t(8)).is_none());
    let g = mutex_lock(m.state()).unwrap();
    assert!(c.wait(m.state(), g, t(16)).is_none());
    let g = mutex_lock(m.state()).unwrap();
    assert!(c.wait(m.state(), g, t(24)).is_none());
    assert_eq!(addr(c.notify_one().unwrap()), 8);
    let rest: Vec<usize> = c.notify_all().into_iter().map(addr).collect();
    assert_eq!(rest, vec![16, 24]);
}

#[test]
fn mcs_locks_are_handed_over_in_order() {
    let mut m: McsMutex<Slot, u64> = McsMutex::new(1);
    let g = m.lock().ok().unwrap();
    let (p1, n1) = m.lock().err().unwrap();
    let mut spins = 63;
    let g = match m.unlock(g, &mut spins) {
        UnlockStep::Again { guard, yield_first } => {
            assert!(yield_first);
            guard
        }
        _ => panic!("the waiter is not linked yet"),
    };
    m.park(p1, n1, t(8));
    let (p2, n2) = m.lock().err().unwrap();
    m.park(p2, n2, t(16));
    *m.deref_mut(&g) = 7;
    let g = match m.unlock(g, &mut spins) {
        UnlockStep::Wake(w, handed) => {
            assert_eq!(addr(w), 8);
            McsMutexGuard::resumed(handed)
        }
        _ => panic!("the first waiter was not woken"),
    };
    assert_eq!(*m.deref_mut(&g), 7);
    let g = match m.unlock(g, &mut spins) {
        UnlockStep::Wake(w, handed) => {
            assert_eq!(addr(w), 16);
            McsMutexGuard::resumed(handed)
        }
        _ => panic!("the second waiter was not woken"),
    };
    assert!(matches!(m.unlock(g, &mut spins), UnlockStep::Free));
    assert!(m.lock().is_ok());
}

#[test]
fn mcs_condition_variables_wake_in_order() {
    let mut c: McsCondvar<Slot> = McsCondvar::new();
    c.wait(t(8));
    c.wait(t(16));
    assert_eq!(addr(c.notify_one().unwrap()), 8);
    assert_eq!(c.notify_all().len(), 1);
    assert!(c.notify_one().is_none());
}

struct Adder {
    sum: u64,
    pending: u32,
}

struct Add(u64);

impl WorkItem for Add {
    fn initial() -> Self {
        Add(0)
    }

    fn new_initial() -> Self {
        Add(0)
    }
}

impl DelegatorConsumer<Slot> for Adder {
    type Work = Add;

    fn active(&self) -> bool {
        self.pending > 0
    }

    fn executes_to(self, _: Add, _: Self, _: Add, _: bool, _: Option<Slot>) -> bool {
        true
    }

    fn progresses_to(self, _: Self, _: Option<Slot>) -> bool {
        true
    }

    fn is_active(&self) -> bool {
        self.pending > 0
    }

    fn execute(&mut self, work: &mut Add) -> (bool, Option<Slot>) {
        self.sum += work.0;
        (true, None)
    }

    fn progress(&mut self) -> Option<Slot> {
        self.pending -= 1;
        None
    }
}

type Del = Delegator<Slot, Adder, RingBufQueue<Slot, Add, 4>>;

fn idle() -> Adder {
    Adder { sum: 0, pending: 0 }
}

#[test]
fn a_free_delegator_is_locked_at_once() {
    let mut d: Del = Delegator::new(idle());
    assert_eq!(d.join(), JoinStep::Locked);
    assert_eq!(d.unlock(), UnlockAction::Unlocked);
    assert_eq!(d.join(), JoinStep::Locked);
    d.consumer.pending = 1;
    assert_eq!(d.unlock(), UnlockAction::NotifyConsumer);
}

#[test]
fn a_waiter_is_given_the_lock() {
    let mut d: Del = Delegator::new(idle());
    assert_eq!(d.join(), JoinStep::Locked);
    let cur = match d.join() {
        JoinStep::Enqueued { cur, .. } => cur,
        _ => panic!("the lock was free"),
    };
    d.lock_wait(cur, t(8));
    assert_eq!(d.unlock(), UnlockAction::SwapWith(cur));
    assert_eq!(addr(std::mem::replace(&mut d.queue.node_mut(cur).sth, Slot::new())), 8);
    assert_eq!(d.unlock(), UnlockAction::Unlocked);
}

#[test]
fn a_holder_that_waits_hands_the_lock_on() {
    let mut d: Del = Delegator::new(idle());
    assert_eq!(d.join(), JoinStep::Locked);
    assert_eq!(d.unlock_and_wait(), WaitAction::ParkAndTryUnlock);
    assert!(d.try_unlock_parked());
}

#[test]
fn the_consumer_works_off_what_was_left() {
    let mut d: Del = Delegator::start(idle());
    let cur = match d.join() {
        JoinStep::Enqueued { cur, .. } => cur,
        _ => panic!("the consumer has the lock"),
    };
    d.lock_or_delegate(cur, t(8), |_| Add(5));
    let out = d.consume();
    assert_eq!(d.consumer.sum, 5);
    assert!(out.wake_first.is_none());
    assert!(matches!(out.end, ConsumeEnd::Continue));
    let out = d.consume();
    assert!(matches!(out.end, ConsumeEnd::ParkIfUnlocked));
}

#[test]
fn a_full_ring_refuses() {
    let mut d: Del = Delegator::new(idle());
    assert_eq!(d.join(), JoinStep::Locked);
    for _ in 0..3 {
        assert!(matches!(d.join(), JoinStep::Enqueued { .. }));
    }
    assert_eq!(d.join(), JoinStep::Full);
}

#[test]
fn work_is_run_at_once_or_left_but_not_both() {
    let mut d: Del = Delegator::new(idle());
    let joined = d.join();
    let step = d.execute_or_delegate(
        joined,
        |c: &mut Adder| {
            c.sum += 3;
            (true, false)
        },
        |_: SuspendedTaskToken| Add(100),
    );
    assert!(matches!(step, DelegationStep::Ran(Ok(UnlockAction::Unlocked))));
    assert_eq!(d.consumer.sum, 3);

    assert_eq!(d.join(), JoinStep::Locked);
    let joined = d.join();
    let step = d.execute_or_delegate(
        joined,
        |c: &mut Adder| {
            c.sum += 100;
            (true, false)
        },
        |_: SuspendedTaskToken| Add(5),
    );
    match step {
        DelegationStep::Leave { cur, del } => d.lock_or_delegate(cur, t(8), del),
        _ => panic!("the lock was taken"),
    }
    assert_eq!(d.consumer.sum, 3);
    assert_eq!(d.unlock(), UnlockAction::NotifyConsumer);
    let _ = d.consume();
    assert_eq!(d.consumer.sum, 8);
}

#[test]
fn work_that_finds_no_position_comes_back() {
    let mut d: Del = Delegator::new(idle());
    for _ in 0..4 {
        let _ = d.join();
    }
    let joined = d.join();
    let step = d.execute_or_delegate(
        joined,
        |c: &mut Adder| {
            c.sum += 1;
            (true, true)
        },
        |_: SuspendedTaskToken| Add(1),
    );
    assert!(matches!(step, DelegationStep::Retry { .. }));
    assert_eq!(d.consumer.sum, 0);
}

#[test]
fn work_that_waits_gives_the_lock_up() {
    let mut d: Del = Delegator::new(idle());
    let joined = d.join();
    let step =
        d.execute_or_delegate(joined, |_: &mut Adder| (false, true), |_: SuspendedTaskToken| Add(1));
    assert!(matches!(step, DelegationStep::Ran(Err(WaitAction::ParkAndTryUnlock))));
    assert!(d.try_unlock_parked());
}

#[test]
fn the_consumer_is_started_once_and_stopped() {
    let mut d: Del = Delegator::new(idle());
    assert!(d.ensure_consumer_started());
    assert!(!d.ensure_consumer_started());
    assert!(!d.finished);
}
