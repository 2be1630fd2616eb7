use cmpth::interchange::PointerInterchangeable;
use cmpth::resumable::common::deque::{
    HybridRunQueue, HybridStealer, RunQueueStealer, SpinRunQueue, SpinStealer, Steal,
    WorkerRunQueue,
};
use cmpth::resumable::common::desc::SuspendedTaskToken;
use cmpth::resumable::common::external_queue::{
    ExternalQueue, ExternalWakeQueue, PollerUltQueue, ServiceStep, StealPathQueue,
};

fn t(p: usize) -> SuspendedTaskToken {
    SuspendedTaskToken::from_raw(p)
}

fn drain<Q: WorkerRunQueue<SuspendedTaskToken>>(q: &mut Q) -> Vec<usize> {
    let mut out = vec![];
    while let Some(c) = q.try_pop() {
        out.push(c.into_ptr());
    }
    out
}

fn stolen<S: RunQueueStealer<SuspendedTaskToken, Q>, Q: WorkerRunQueue<SuspendedTaskToken>>(
    q: &mut Q,
) -> Option<usize> {
    match S::try_steal(q) {
        Steal::Success(c) => Some(c.into_ptr()),
        Steal::Empty => None,
        Steal::Retry => panic!("nobody else takes items"),
    }
}

#[test]
fn hybrid_pops_newest_first_and_deferred_last() {
    let mut q: HybridRunQueue<SuspendedTaskToken> = HybridRunQueue::new_queue();
    q.push(t(8));
    q.defer(t(16));
    q.push(t(24));
    q.defer(t(32));
    assert_eq!(drain(&mut q), vec![24, 8, 16, 32]);
    assert!(q.try_pop().is_none());
}

#[test]
fn hybrid_thieves_take_the_oldest() {
    let mut q: HybridRunQueue<SuspendedTaskToken> = HybridRunQueue::new_queue();
    q.push(t(8));
    q.push(t(16));
    q.push(t(24));
    assert_eq!(stolen::<HybridStealer, _>(&mut q), Some(8));
    assert_eq!(drain(&mut q), vec![24, 16]);
    assert_eq!(stolen::<HybridStealer, _>(&mut q), None);
}

#[test]
fn hybrid_thieves_take_deferred_items_first() {
    let mut q: HybridRunQueue<SuspendedTaskToken> = HybridRunQueue::new_queue();
    q.push(t(1));
    q.defer(t(3));
    q.push(t(2));
    q.defer(t(4));
    let taken: Vec<_> = (0..5).map(|_| stolen::<HybridStealer, _>(&mut q)).collect();
    assert_eq!(taken, vec![Some(3), Some(4), Some(1), Some(2), None]);
}

#[test]
fn spin_pops_newest_first_and_deferred_last() {
    let mut q: SpinRunQueue<SuspendedTaskToken> = SpinRunQueue::new_queue();
    q.push(t(8));
    q.defer(t(16));
    q.push(t(24));
    assert_eq!(drain(&mut q), vec![24, 8, 16]);
}

#[test]
fn spin_thieves_take_from_the_far_end() {
    let mut q: SpinRunQueue<SuspendedTaskToken> = SpinRunQueue::new_queue();
    q.push(t(8));
    q.push(t(16));
    assert_eq!(stolen::<SpinStealer, _>(&mut q), Some(8));
    assert_eq!(drain(&mut q), vec![16]);
    assert_eq!(stolen::<SpinStealer, _>(&mut q), None);
}

#[test]
fn workers_drain_the_steal_path_queue_newest_first() {
    let mut q = StealPathQueue::new_queue();
    assert!(q.try_pop().is_none());
    q.push(t(8));
    q.push(t(16));
    assert!(!StealPathQueue::needs_service());
    assert_eq!(q.try_pop().unwrap().into_ptr(), 16);
    assert_eq!(q.try_pop().unwrap().into_ptr(), 8);
    assert!(q.try_pop().is_none());
}

#[test]
fn the_service_delivers_before_it_returns() {
    let mut q = PollerUltQueue::new_queue();
    assert!(PollerUltQueue::needs_service());
    q.push(t(8));
    q.push(t(16));
    assert!(q.try_pop().is_none());
    let (out, step) = q.run_service();
    assert_eq!(out.into_iter().map(|c| c.into_ptr()).collect::<Vec<_>>(), vec![8, 16]);
    assert!(matches!(step, ServiceStep::YieldAndRepeat));
    q.push(t(24));
    q.stop_service();
    let (out, step) = q.run_service();
    assert_eq!(out.len(), 1);
    assert!(matches!(step, ServiceStep::Return));
}
