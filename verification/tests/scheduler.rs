use cmpth::context::{Arch, Context, Entry, NativeContext};
use cmpth::interchange::{PointerInterchangeable, Transferred};
use cmpth::resumable::common::desc::{
    HasExternalQueue, SuspendedTaskToken, TaskDesc, TaskDescCore, JS_RUNNING,
};
use cmpth::resumable::common::external_queue::{
    ExternalQueue, ExternalWakeQueue, PollerUltQueue, ServiceStep,
};
use cmpth::resumable::common::deque::{HybridRunQueue, HybridStealer};
use cmpth::resumable::common::layout::Layout;
use cmpth::resumable::common::lookup::{current_worker, CurrentLookup, TlsCurrent};
use cmpth::resumable::common::pool::{BlockPool, ReturnPool, SimplePool, ThresholdPool};
use cmpth::resumable::common::scheduler::{
    recursion_pool_threshold, AsyncTaskPool, IdleStep, RecursionAlloc, Scheduler, TaskPool,
};
use cmpth::resumable::common::stack::{HeapStack, StackMem, UltStackMemory};
use cmpth::resumable::common::system::{
    num_workers, worker_num, Dispatch, PoolSystem, RunnableItem, WorkerSystem,
};
use cmpth::resumable::common::thread::{HandleDrop, JoinHandle, StackResult};
use cmpth::resumable::common::waker::WakeOutcome;
use cmpth::resumable::common::worker::{DescWorkerOps, LocalQueue, UltWorker, WorkerOps};
use cmpth::resumable::dual::dual_wait::{is_on_real_ult, DualEnter, DualResumable, DualWake};
use cmpth::resumable::stackful::desc::{HasCtx, StackfulOnlyTaskDesc};
use cmpth::resumable::stackful::init::{init, needs_service, InitPlan, StackfulBuilderImpl};
use cmpth::resumable::stackful::lookup::{CellSlot, SpCurrent, SpSource};
use cmpth::resumable::stackful::scheduler::{run, run_with_result};
use cmpth::resumable::stackful::stack::ArenaStack;
use cmpth::resumable::stackful::suspended;
use cmpth::resumable::stackful::suspended::{BasicStackfulOnlyResumable, StackfulOnlyResumableCore};
use cmpth::resumable::stackful::system::{StackfulWorkerSystem, UltIdentity};
use cmpth::resumable::stackful::thread::{
    exit_abandoned_land, exit_handoff_land, exit_settle_land, exit_with_result, keep_result,
    parallel_call, parallel_call_end, spawn, BranchEnd, BranchWarmPool, ExitEnd, ExitKind, JoinBegin,
};
use cmpth::resumable::stackful::tls::UltTls;
use cmpth::resumable::stackful::waker::{
    clone_waker, try_wake, PollerWait, ResumablePoller, UltPoller, WakerKind,
};
use cmpth::resumable::stackful::worker::{ContextSwitcher, StackfulWorker};
use cmpth::resumable::stackless::desc::HasPollFn;
use cmpth::{DefaultDualTaskSystem, DefaultStackfulOnlyTaskSystem};

type S = DefaultStackfulOnlyTaskSystem;
type D = DefaultDualTaskSystem;

const QUEUE: usize = 0x5000;
const WORD: Layout = Layout { size: 8, align: 8 };

fn make(size: usize) -> StackMem {
    StackMem::Heap { ptr: 0x200000, size }
}

fn t(p: usize) -> SuspendedTaskToken {
    SuspendedTaskToken::from_raw(p)
}

/// A system whose caller runs on worker 0, while the loop of worker 0 is
/// parked.
fn started<X: StackfulWorkerSystem>(n: usize) -> (InitPlan<X>, usize)
where
    <X::Desc as TaskDescCore>::Owned: HasCtx,
{
    let mut plan: InitPlan<X> = init(n, 65536, None, QUEUE, 4096, |_, _| 0x100000);
    let caller = plan.sched.workers[0].cur_task();
    let s = &mut plan.sched;
    suspended::enter_land(s, 0, Context(0x7000), Transferred::from_raw(plan.loop_desc));
    assert_eq!(s.workers[0].cur_task(), plan.loop_desc);
    let mut rounds = 5;
    let c = match s.worker_idle_step(0, &mut rounds) {
        IdleStep::Run(c) => c,
        _ => panic!("the caller was not queued"),
    };
    assert_eq!((c.desc(), rounds), (caller, 0));
    let p = s.suspend_to_cont(c);
    assert_eq!(p.to, Context(0x7000));
    s.run_land(0, Context(0x8000), Transferred::new(p.next));
    assert_eq!(s.workers[0].cur_task(), caller);
    (plan, caller)
}

#[test]
fn init_makes_the_caller_a_task() {
    let (plan, caller) = started::<S>(3);
    assert_eq!(plan.loop_stack.stack_top(), 0x111000);
    assert_eq!(plan.exec_top, 0x111000);
    let node = plan.sched.tasks.get(caller);
    assert!(!node.payload.is_root());
    assert!(node.payload.is_abandoned());
    assert_eq!(node.payload.owned().external_queue(), QUEUE);
    assert!(plan.sched.tasks.get(plan.loop_desc).payload.is_root());
    assert!(!needs_service::<S>());
}

#[test]
fn teardown_returns_to_the_caller() {
    let (mut plan, caller) = started::<S>(1);
    let s = &mut plan.sched;
    plan.guard.stop_service(s);
    assert_eq!(plan.guard.take_service(s), None);
    let p = plan.guard.finish(s, 0);
    assert!(s.finished);
    assert_eq!((p.next.desc(), p.to), (plan.loop_desc, Context(0x8000)));
    plan.guard.finish_land(s, 0, Context(0x7700), Transferred::new(p.next));
    let mut rounds = 0;
    assert!(matches!(s.worker_idle_step(0, &mut rounds), IdleStep::Exit));
    let p = plan.guard.leave_loop(s);
    assert_eq!((p.next.desc(), p.to), (caller, Context(0x7700)));
    assert_eq!(s.exit_shim(0, Transferred::new(p.next)), plan.loop_desc);
    assert_eq!(s.workers[0].cur_task(), caller);
}

#[test]
fn builders_fall_back_to_defaults() {
    let b: StackfulBuilderImpl<S> = StackfulBuilderImpl::new();
    assert_eq!(b.settings(7), (7, 65536));
    assert_eq!(b.workers(3).stack_size(4096).settings(7), (3, 4096));
}

#[test]
fn a_child_that_is_not_stolen_has_finished_before_the_join() {
    let (mut plan, caller) = started::<S>(1);
    let s = &mut plan.sched;
    let p = spawn::<S, u64, _>(s, 0, QUEUE, WORD, Layout { size: 16, align: 8 }, make);
    assert_eq!(p.handle.result_ptr, 0x210000 - 16);
    assert_eq!(p.closure, 0x210000 - 24);
    assert_eq!(p.exec_top, 0x210000 - 32);
    let child = p.handle.desc;
    let (_, next) = s.suspend_to_new(p.exec_top, child);
    suspended::enter_land(s, 0, Context(0x7100), next);
    assert_eq!(s.workers[0].cur_task(), child);
    let (kind, sw) = exit_with_result(s, 0);
    assert_eq!(kind, ExitKind::Settle);
    assert_eq!((sw.next.desc(), sw.to), (caller, Context(0x7100)));
    assert!(matches!(exit_settle_land(s, 0, Transferred::new(sw.next)), ExitEnd::Nothing));
    assert!(matches!(p.handle.join(s, 0), JoinBegin::Ready));
    let (r, freed) = p.handle.take_result(s, 0, StackResult::Value(42));
    assert_eq!(r, Ok(42));
    assert!(freed.is_none());
}

#[test]
fn a_child_that_runs_elsewhere_hands_over_to_its_joiner() {
    let (mut plan, caller) = started::<S>(2);
    let s = &mut plan.sched;
    let p = spawn::<S, u64, _>(s, 0, QUEUE, WORD, WORD, make);
    let child = p.handle.desc;
    s.worker_loop(1);
    // Worker 1 runs the child; worker 0 joins.
    s.workers[1].take_cur_task();
    s.workers[1].set_cur_task(cmpth::resumable::common::desc::RunningTaskToken::from_raw(child));
    let sw = match p.handle.join(s, 0) {
        JoinBegin::Suspend(sw) => sw,
        JoinBegin::Ready => panic!("the child still runs"),
    };
    assert_eq!(sw.next.desc(), plan.loop_desc);
    let (transfer, waker) = p.handle.join_land(s, 0, Context(0x7200), sw.next);
    assert!(transfer.commits());
    assert!(waker.is_none());
    assert_eq!(s.workers[0].cur_task(), plan.loop_desc);
    let (kind, sw) = exit_with_result(s, 1);
    assert_eq!(kind, ExitKind::Handoff);
    assert_eq!((sw.next.desc(), sw.to), (caller, Context(0x7200)));
    exit_handoff_land(s, 1, Transferred::new(sw.next));
    assert_eq!(s.workers[1].cur_task(), caller);
    let (r, _) = p.handle.take_result(s, 1, StackResult::Panicked(0x30));
    assert_eq!(r, Err(0x30));
}

#[test]
fn a_join_that_loses_the_race_is_called_off() {
    let (mut plan, caller) = started::<S>(1);
    let s = &mut plan.sched;
    let p = spawn::<S, u64, _>(s, 0, QUEUE, WORD, WORD, make);
    let sw = match p.handle.join(s, 0) {
        JoinBegin::Suspend(sw) => sw,
        JoinBegin::Ready => panic!("the child still runs"),
    };
    s.tasks.get_mut(p.handle.desc).payload.commit_finished();
    let (transfer, _) = p.handle.join_land(s, 0, Context(0x7200), sw.next);
    assert!(!transfer.commits());
    assert_eq!(s.workers[0].cur_task(), caller);
    let p2 = s.suspend_to_sched(0);
    assert_eq!((p2.next.desc(), p2.to), (plan.loop_desc, Context(0x8000)));
}

#[test]
fn abandoned_tasks_clean_up_after_themselves() {
    let (mut plan, caller) = started::<S>(1);
    let s = &mut plan.sched;
    let p = spawn::<S, u64, _>(s, 0, QUEUE, WORD, WORD, make);
    let child = p.handle.desc;
    let (_, next) = s.suspend_to_new(p.exec_top, child);
    suspended::enter_land(s, 0, Context(0x7100), next);
    assert!(matches!(p.handle.drop_handle(s, Some(0)), HandleDrop::Detached(None)));
    let (kind, sw) = exit_with_result(s, 0);
    assert_eq!(kind, ExitKind::Abandoned);
    assert!(matches!(exit_abandoned_land(s, 0, Transferred::new(sw.next)), ExitEnd::Freed(None)));
    assert_eq!(s.workers[0].cur_task(), caller);
}

#[test]
fn a_handle_dropped_while_the_task_exits_leaves_the_result_to_it() {
    let (mut plan, _) = started::<S>(1);
    let s = &mut plan.sched;
    let p = spawn::<S, u64, _>(s, 0, QUEUE, WORD, WORD, make);
    let (_, next) = s.suspend_to_new(p.exec_top, p.handle.desc);
    suspended::enter_land(s, 0, Context(0x7100), next);
    let (kind, sw) = exit_with_result(s, 0);
    assert_eq!(kind, ExitKind::Settle);
    assert!(matches!(p.handle.drop_handle(s, Some(0)), HandleDrop::Detached(None)));
    assert!(matches!(
        exit_settle_land(s, 0, Transferred::new(sw.next)),
        ExitEnd::DropResult(None)
    ));
}

#[test]
fn a_handle_dropped_last_drops_the_result() {
    let (mut plan, _) = started::<S>(1);
    let s = &mut plan.sched;
    let p = spawn::<S, u64, _>(s, 0, QUEUE, WORD, WORD, make);
    s.tasks.get_mut(p.handle.desc).payload.commit_finished();
    assert!(matches!(p.handle.drop_handle(s, None), HandleDrop::DropResult(Some(_))));
    let consumed: JoinHandle<S, u64> = JoinHandle::new(0, 0);
    assert!(matches!(consumed.drop_handle(s, Some(0)), HandleDrop::Consumed));
    let p = spawn::<S, u64, _>(s, 0, QUEUE, WORD, WORD, make);
    s.tasks.get_mut(p.handle.desc).payload.commit_finished();
    let (r, desc) = p.handle.take_result_no_worker(s, StackResult::Value(1));
    assert_eq!(r, Ok(1));
    assert!(desc.is_finished());
}

const ENTRY: Entry = Entry { function: 0xF0, arg: 0, trampoline: 0x7A };

#[test]
fn a_branch_that_is_not_stolen_is_used_again() {
    let (mut plan, _) = started::<S>(1);
    let s = &mut plan.sched;
    let mut warm = BranchWarmPool::new();
    let b = parallel_call::<S, u64, _>(
        s, 0, &mut warm, Arch::X86_64, ENTRY, QUEUE, WORD, WORD, make,
    );
    let top = 0x210000;
    assert_eq!(b.dispatch_slot, top - 8);
    assert_eq!(b.handle.result_ptr, top - 16);
    assert_eq!(b.closure, top - 24);
    let (ctx, words) = b.frame.unwrap();
    assert_eq!(ctx, Context(top - 256 - 56));
    assert_eq!(words, vec![0xF0, 0, 0, 0, 0, 0, 0x7A]);
    assert!(matches!(
        parallel_call_end(s, 0, &mut warm, b.handle.desc, true),
        BranchEnd::RunInline(None)
    ));
    let again = parallel_call::<S, u64, _>(
        s, 0, &mut warm, Arch::X86_64, ENTRY, QUEUE, WORD, WORD, |_| panic!("one was warm"),
    );
    assert_eq!(again.handle.desc, b.handle.desc);
    assert!(again.frame.is_none());
    // Somebody steals it; something else lies on top.
    let stolen = s.workers[0].try_pop().unwrap();
    s.workers[0].push(t(0x4440));
    assert!(matches!(
        parallel_call_end(s, 0, &mut warm, stolen.desc(), true),
        BranchEnd::Join
    ));
    assert_eq!(s.workers[0].try_pop().unwrap().desc(), 0x4440);
}

#[test]
fn a_large_branch_is_not_kept_warm() {
    let (mut plan, _) = started::<S>(1);
    let s = &mut plan.sched;
    let mut warm = BranchWarmPool::new();
    let big = Layout { size: 300, align: 8 };
    let b = parallel_call::<S, u64, _>(
        s, 0, &mut warm, Arch::Aarch64, ENTRY, QUEUE, big, WORD, make,
    );
    let top = 0x210000;
    assert_eq!(b.closure, top - 16 - 304);
    assert_eq!(b.frame.unwrap().0, Context(top - 320 - 96));
    assert!(matches!(
        parallel_call_end(s, 0, &mut warm, b.handle.desc, false),
        BranchEnd::RunInline(None)
    ));
    assert!(warm.branch_warm_pop().is_none());
}

#[test]
fn idle_workers_search_in_order_and_yield() {
    let mut s: Scheduler<S> = Scheduler::new(2, 65536);
    let mut rounds = 0;
    s.workers[1].push(t(8));
    s.workers[1].push(t(16));
    s.workers[0].push(t(24));
    let mut ran = vec![];
    loop {
        match s.worker_idle_step(0, &mut rounds) {
            IdleStep::Run(c) => ran.push(c.into_ptr()),
            IdleStep::Spin if rounds == 0 => {}
            _ => break,
        }
    }
    assert_eq!(ran, vec![24, 8, 16]);
    assert_eq!(rounds, 1);
    for _ in 0..62 {
        assert!(matches!(s.worker_idle_step(0, &mut rounds), IdleStep::Spin));
    }
    assert!(matches!(s.worker_idle_step(0, &mut rounds), IdleStep::Yield));
    s.finished = true;
    assert!(matches!(s.worker_idle_step(0, &mut rounds), IdleStep::Exit));
}

#[test]
fn wakes_from_outside_are_drained_last() {
    let (mut plan, caller) = started::<S>(1);
    let s = &mut plan.sched;
    s.push_continuation(None, t(caller));
    s.push_continuation(Some(0), t(0x4440));
    let mut rounds = 0;
    assert!(matches!(s.worker_idle_step(0, &mut rounds), IdleStep::Run(c) if c.desc() == 0x4440));
    assert!(matches!(s.worker_idle_step(0, &mut rounds), IdleStep::Run(c) if c.desc() == caller));
    assert!(s.external_queue.try_pop().is_none());
}

#[test]
fn yielding_puts_a_task_behind_the_others() {
    let (mut plan, caller) = started::<S>(1);
    let s = &mut plan.sched;
    let p = s.suspend_to_sched(0);
    s.yield_now(0, Context(0x7300), Transferred::new(p.next));
    s.workers[0].push(t(0x4440));
    assert_eq!(s.workers[0].try_pop().unwrap().desc(), 0x4440);
    assert_eq!(s.workers[0].try_pop().unwrap().desc(), caller);
}

#[test]
fn slots_park_and_wake() {
    let (mut plan, caller) = started::<S>(1);
    let s = &mut plan.sched;
    let mut slot = BasicStackfulOnlyResumable::new();
    let p = s.suspend_to_sched(0);
    suspended::wait_with(&mut slot, s, 0, Context(0x7400), Transferred::new(p.next));
    assert!(slot.is_set());
    suspended::notify(&mut slot, s, 0);
    assert!(!slot.is_set());
    let c = s.workers[0].try_pop().unwrap();
    assert_eq!(c.desc(), caller);
    slot.park(c);
    let p = suspended::enter(&mut slot, s);
    assert_eq!((p.next.desc(), p.to), (caller, Context(0x7400)));
}

#[test]
fn a_wait_may_be_called_off() {
    let (mut plan, caller) = started::<S>(1);
    let s = &mut plan.sched;
    let mut slot = BasicStackfulOnlyResumable::new();
    let p = s.cond_suspend_to_sched(0);
    suspended::wait_with_cond(&mut slot, s, 0, Context(0x7400), p.next);
    assert!(slot.is_set());
    assert!(!suspended::wait_with_cond_decided(&mut slot, s, 0, false).commits());
    assert!(!slot.is_set());
    assert_eq!(s.workers[0].cur_task(), caller);
    let p = s.cond_suspend_to_sched(0);
    assert_eq!((p.next.desc(), p.to), (plan.loop_desc, Context(0x8000)));
    suspended::wait_with_cond(&mut slot, s, 0, Context(0x7400), p.next);
    assert!(suspended::wait_with_cond_decided(&mut slot, s, 0, true).commits());
    assert!(slot.is_set());
    assert_eq!(s.workers[0].cur_task(), plan.loop_desc);
}

#[test]
fn dual_slots_hold_either_kind() {
    let (mut plan, caller) = started::<D>(1);
    let s = &mut plan.sched;
    assert!(is_on_real_ult(s, 0));
    let mut slot = DualResumable::new();
    assert_eq!(slot.notify(s, 0), DualWake::Nothing);
    slot.register(0x3330);
    assert!(slot.is_set());
    assert_eq!(slot.notify(s, 0), DualWake::CallWaker(0x3330));
    let p = s.suspend_to_sched(0);
    slot.wait_with(s, 0, Context(0x7400), Transferred::new(p.next));
    assert!(!is_on_real_ult(s, 0));
    assert_eq!(slot.notify(s, 0), DualWake::Pushed);
    assert_eq!(s.workers[0].try_pop().unwrap().desc(), caller);
}

#[test]
fn entering_a_dual_slot_switches_only_to_tasks() {
    let (mut plan, _) = started::<D>(1);
    let s = &mut plan.sched;
    let mut slot = DualResumable::new();
    slot.register(0x3330);
    assert!(matches!(slot.enter(s, 0), DualEnter::Woke(DualWake::CallWaker(0x3330))));
    assert!(matches!(slot.enter(s, 0), DualEnter::Woke(DualWake::Nothing)));
    let p = s.suspend_to_sched(0);
    let caller = s.workers[0].cur_task();
    slot.wait_with(s, 0, Context(0x7400), Transferred::new(p.next));
    let other = spawn::<D, u64, _>(s, 0, QUEUE, WORD, WORD, make).handle.desc;
    s.workers[0].take_cur_task();
    s.workers[0].set_cur_task(cmpth::resumable::common::desc::RunningTaskToken::from_raw(other));
    let mine = DualResumable::new();
    match mine.swap(&mut slot, s, 0) {
        DualEnter::Switch(p) => assert_eq!((p.next.desc(), p.to), (caller, Context(0x7400))),
        DualEnter::Woke(_) => panic!("there was a task to switch to"),
    }
    assert!(!slot.is_set());
}

#[test]
fn a_dual_wait_may_be_called_off() {
    let (mut plan, caller) = started::<D>(1);
    let s = &mut plan.sched;
    let mut slot = DualResumable::new();
    let p = s.cond_suspend_to_sched(0);
    slot.wait_with_cond(s, 0, Context(0x7400), p.next);
    assert!(!slot.wait_with_cond_decided(s, 0, false).commits());
    assert_eq!(s.workers[0].cur_task(), caller);
    assert!(!slot.is_set());
}

#[test]
fn polled_tasks_are_left_to_the_loop() {
    let (mut plan, _) = started::<D>(1);
    let s = &mut plan.sched;
    let a = s.alloc_async_task(0, true, 100, make);
    let polled = a.desc();
    s.tasks.get_mut(polled).payload.owned_mut().commit_as_poll_fn();
    s.tasks.get_mut(polled).payload.owned_mut().set_poll_fn(0x99);
    assert_eq!(s.tasks.get(polled).payload.run_on(), Dispatch::Poll(0x99));
    s.workers[0].push(a);
    let p = s.suspend_to_sched(0);
    assert_eq!(p.next.desc(), plan.loop_desc);
    assert_eq!(s.workers[0].try_pop().unwrap().desc(), polled);
    assert!(s.reclaim(0, polled).is_none());
    let b = s.alloc_async_task(0, true, 100, |_| panic!("one was pooled"));
    assert!(s.tasks.get(b.desc()).payload.owned().is_poll_fn_dispatch());
    let c = s.alloc_task(0, true, make);
    assert_eq!(s.tasks.get(c.desc()).payload.join_state(), JS_RUNNING);
    assert_eq!(s.tasks.get(c.desc()).payload.run_on(), Dispatch::Switch);
    assert!(s.free_task(0, c.desc()).is_none());
    assert!(s.free_async_task(0, b.desc()).is_none());
}

#[test]
fn recursion_frames_are_pooled() {
    let mut s: Scheduler<D> = Scheduler::new(1, 65536);
    assert_eq!(recursion_pool_threshold::<D>(), Layout { size: 512, align: 16 });
    let small = Layout { size: 100, align: 8 };
    let b = s.alloc_recursion_frame(0, small, |_| 0x60000);
    let addr = b.addr;
    assert!(s.free_recursion_frame(0, b, small).is_none());
    assert_eq!(s.alloc_recursion_frame(0, small, |_| 0).addr, addr);
}

#[test]
fn pollers_park_and_are_woken() {
    let (mut plan, caller) = started::<D>(1);
    let s = &mut plan.sched;
    let poller = UltPoller::new(s, Some(0));
    assert_eq!(poller.desc, Some(caller));
    // A wake during the poll calls the wait off.
    assert_eq!(try_wake(s, Some(0), caller), WakeOutcome::SetNotified);
    let sw = match poller.wait(s, 0) {
        PollerWait::Suspend(sw) => sw,
        PollerWait::YieldBelow => panic!("the caller is a task"),
    };
    assert!(!poller.wait_land(s, 0, Context(0x7500), sw.next).commits());
    assert_eq!(s.workers[0].cur_task(), caller);
    // Without one the task parks, and the next wake makes it ready.
    let sw = match poller.wait(s, 0) {
        PollerWait::Suspend(sw) => sw,
        PollerWait::YieldBelow => panic!("the caller is a task"),
    };
    assert!(poller.wait_land(s, 0, Context(0x7500), sw.next).commits());
    assert_eq!(try_wake(s, None, caller), WakeOutcome::ClaimedParked);
    assert_eq!(s.external_queue.try_pop().unwrap().desc(), caller);
    assert_eq!(clone_waker(s, caller, WakerKind::Private), WakerKind::Shared);
    assert_eq!(clone_waker(s, caller, WakerKind::Shared), WakerKind::Shared);
    poller.close(s);
    assert_eq!(try_wake(s, Some(0), caller), WakeOutcome::NoOp);
    let outside = UltPoller::new(s, None);
    assert!(matches!(outside.wait(s, 0), PollerWait::YieldBelow));
}

#[test]
fn resumable_pollers_keep_their_own_state() {
    let (mut plan, caller) = started::<S>(1);
    let s = &mut plan.sched;
    let mut poller = ResumablePoller::new(true);
    let sw = match poller.wait(s, 0) {
        PollerWait::Suspend(sw) => sw,
        PollerWait::YieldBelow => panic!("the caller is a task"),
    };
    let slot = poller.slot.as_mut().unwrap();
    assert!(slot.wait_land(s, 0, Context(0x7600), sw.next).commits());
    assert_eq!(slot.cont, caller);
    assert_eq!(slot.wake_by_ref(s, Some(0)), WakeOutcome::ClaimedParked);
    assert_eq!(slot.wake_by_ref(s, Some(0)), WakeOutcome::SetNotified);
    assert_eq!(s.workers[0].try_pop().unwrap().desc(), caller);
    assert!(s.workers[0].try_pop().is_none());
    poller.close();
    assert_eq!(poller.slot.as_mut().unwrap().wake_by_ref(s, Some(0)), WakeOutcome::NoOp);
    let outside = ResumablePoller::new(false);
    assert!(matches!(outside.wait(s, 0), PollerWait::YieldBelow));
}

#[test]
fn run_queues_one_detached_task() {
    let mut p = run::<S, _>(2, 65536, Arch::X86_64, ENTRY, QUEUE, make);
    assert_eq!(p.frame.0, Context(0x210000 - 56));
    let node = p.sched.tasks.get(p.root);
    assert!(node.payload.is_abandoned());
    assert_eq!(node.payload.owned().ctx(), 0x210000 - 56);
    assert_eq!(p.sched.workers[0].try_pop().unwrap().desc(), p.root);
    assert_eq!(run_with_result(&mut p.sched, || 6 * 7), 42);
    assert!(p.sched.finished);
}

#[test]
fn workers_are_looked_up() {
    assert_eq!(current_worker(0), None);
    assert_eq!(TlsCurrent::current(0x80), Some(0x80));
    assert_eq!(<UltWorker<S> as WorkerOps>::current::<TlsCurrent>(0), None);
    assert_eq!((worker_num(None), worker_num(Some(3))), (0, 3));
    assert_eq!((num_workers(None), num_workers(Some(3))), (1, 3));
}

/// A system whose stacks come from an arena.
struct SpTestSystem;

impl UltIdentity for SpTestSystem {
    type Ctx = NativeContext;
    type Alloc = HeapStack;
    type Queue = HybridRunQueue<SuspendedTaskToken>;
    type QueueStealer = HybridStealer;

    fn identity_stack_size() -> usize {
        unreachable!()
    }

    fn ult_stack_size() -> usize {
        65536
    }
}

#[test]
fn sp_lookup_hits_on_arena_stack() {
    type X = SpTestSystem;
    const SP_TEST_ID: usize = 0x1D;
    let mut arena = ArenaStack::new(0x1000000, 0x100000, 65536, 4096);
    let (mut plan, caller) = started::<X>(2);
    let s = &mut plan.sched;
    let cell = StackMem::from(arena.cell_stack(1));
    let h = spawn::<X, u64, _>(s, 0, QUEUE, WORD, Layout { size: 16, align: 8 }, |_| cell);
    let (_, next) = s.suspend_to_new(h.exec_top, h.handle.desc);
    suspended::enter_land(s, 0, Context(0x7100), next);
    arena.mark_running(s, 0, SP_TEST_ID, 0x880);

    let current_sp = h.exec_top - 200;
    let slot = arena.slot_from_sp(current_sp).expect("sp lookup missed on an arena stack");
    assert_eq!(slot.system_id, SP_TEST_ID, "cell slot tagged with the wrong system");
    assert!(slot.worker != 0, "slot worker not maintained");
    let found = |cell, system_id, tls| SpCurrent::current(SpSource { cell, system_id, tls });
    assert_eq!(found(Some(slot), SP_TEST_ID, 0x990), Some(0x880));
    assert_eq!(found(Some(slot), SP_TEST_ID + 1, 0x990), Some(0x990));

    let (kind, sw) = exit_with_result(s, 0);
    let left = keep_result(kind, Ok(42u64)).unwrap();
    exit_settle_land(s, 0, Transferred::new(sw.next));
    assert_eq!(s.workers[0].cur_task(), caller);
    assert!(matches!(h.handle.join(s, 0), JoinBegin::Ready));
    assert_eq!(h.handle.take_result(s, 0, left).0, Ok(42));

    // Elsewhere the slot of the thread is asked.
    assert_eq!(arena.slot_from_sp(plan.exec_top), None);
    assert_eq!(found(None, SP_TEST_ID, 0), None);
    let other = arena.cell_stack(2).stack_top() - 1;
    assert_eq!(arena.slot_from_sp(other), Some(CellSlot { system_id: 0, worker: 0 }));
}

#[test]
fn task_storage_moves_with_the_task() {
    let (mut plan, caller) = started::<S>(1);
    let s = &mut plan.sched;
    let mut next = 0;
    let mut a: UltTls<S, u8> = UltTls::new();
    let mut b: UltTls<S, u8> = UltTls::new();
    let mine = &mut s.tasks.get_mut(caller).payload.owned.desc_owned;
    assert_eq!((a.get(&mut next, mine), next), (0, 0));
    a.set(&mut next, mine, 0x10);
    assert_eq!(next, 1);
    b.set(&mut next, mine, 0x20);
    a.set(&mut next, mine, 0x30);
    assert_eq!((a.get(&mut next, mine), b.get(&mut next, mine)), (0x30, 0x20));
    assert_eq!((a.key(&mut next), b.key(&mut next), next), (0, 1, 2));
    let other = spawn::<S, u64, _>(s, 0, QUEUE, WORD, WORD, make).handle.desc;
    assert_eq!(a.get(&mut next, &s.tasks.get(other).payload.owned.desc_owned), 0);
}

#[test]
fn a_child_that_yielded_goes_on_when_it_is_joined() {
    let (mut plan, caller) = started::<S>(1);
    let s = &mut plan.sched;
    let p = spawn::<S, u64, _>(s, 0, QUEUE, WORD, WORD, make);
    let child = p.handle.desc;
    suspended::enter_land(s, 0, Context(0x7100), Transferred::from_raw(child));
    let sw = s.suspend_to_sched(0);
    assert_eq!((sw.next.desc(), sw.to), (caller, Context(0x7100)));
    s.yield_now(0, Context(0x7300), Transferred::new(sw.next));
    assert_eq!(s.workers[0].cur_task(), caller);
    let sw = match p.handle.join(s, 0) {
        JoinBegin::Suspend(sw) => sw,
        JoinBegin::Ready => panic!("the child still runs"),
    };
    assert_eq!((sw.next.desc(), sw.to), (child, Context(0x7300)));
    let (transfer, _) = p.handle.join_land(s, 0, Context(0x7400), sw.next);
    assert!(transfer.commits());
    assert_eq!(s.workers[0].cur_task(), child);
    let (kind, sw) = exit_with_result(s, 0);
    assert_eq!(kind, ExitKind::Handoff);
    assert_eq!((sw.next.desc(), sw.to), (caller, Context(0x7400)));
    exit_handoff_land(s, 0, Transferred::new(sw.next));
    assert!(matches!(p.handle.join(s, 0), JoinBegin::Ready));
}

/// A system whose outside wakes are delivered by a service task.
struct Serviced;

impl PoolSystem for Serviced {
    type Desc = StackfulOnlyTaskDesc;
    type Pool = ReturnPool<StackfulOnlyTaskDesc, 16>;
    type AsyncPool = SimplePool<StackfulOnlyTaskDesc, 256>;
    type RecursionPool = ThresholdPool<BlockPool<16>>;
    type ExternalQueue = PollerUltQueue;

    fn spec_async_pool_size() -> usize {
        0
    }

    fn async_pool_size() -> usize {
        0
    }
}

impl WorkerSystem for Serviced {
    type RunQueue = HybridRunQueue<SuspendedTaskToken>;
    type Stealer = HybridStealer;
}

#[test]
fn a_service_delivers_outside_wakes_behind_the_rest() {
    let mut s: Scheduler<Serviced> = Scheduler::new(2, 4096);
    assert!(<PollerUltQueue as ExternalQueue>::needs_service());
    s.workers[1].push(t(8));
    s.external_queue.push(t(16));
    s.external_queue.push(t(24));
    assert_eq!(s.run_service(Some(1)), ServiceStep::YieldAndRepeat);
    s.external_queue.push(t(32));
    s.external_queue.stop_service();
    assert_eq!(s.run_service(Some(1)), ServiceStep::Return);
    let order: Vec<usize> =
        (0..4).map(|_| s.workers[1].try_pop().unwrap().into_raw()).collect();
    assert_eq!(order, vec![8, 16, 24, 32]);
    assert!(s.workers[1].try_pop().is_none());
    assert!(s.workers[0].try_pop().is_none());
    s.external_queue.push(t(40));
    assert_eq!(s.run_service(None), ServiceStep::Return);
    assert_eq!(s.run_service(Some(0)), ServiceStep::Return);
    assert!(s.workers[0].try_pop().is_none());
}

#[test]
fn a_queue_that_workers_drain_has_no_service() {
    let (mut plan, _) = started::<S>(1);
    plan.sched.external_queue.push(t(16));
    assert_eq!(plan.sched.run_service(Some(0)), ServiceStep::Return);
    assert_eq!(plan.sched.external_queue.try_pop().unwrap().into_raw(), 16);
}

#[test]
fn a_worker_keeps_what_a_polled_task_asked_for() {
    let mut wk = UltWorker::<D>::new(0, 0x8);
    assert_eq!(wk.polling_async(), 0);
    wk.set_polling_async(0x40);
    assert_eq!(wk.polling_async(), 0x40);
    assert!(!wk.take_yield_requested());
    wk.set_yield_requested(true);
    assert!(wk.take_yield_requested());
    assert!(!wk.take_yield_requested());
    assert_eq!(wk.polling_async(), 0x40);
}

#[test]
fn a_task_keeps_its_result_unless_it_was_given_up() {
    assert!(matches!(keep_result(ExitKind::Handoff, Ok(7)), Ok(StackResult::Value(7))));
    assert!(matches!(keep_result(ExitKind::Settle, Ok(7)), Ok(StackResult::Value(7))));
    assert!(matches!(keep_result::<i32>(ExitKind::Settle, Err(9)), Ok(StackResult::Panicked(9))));
    assert!(matches!(keep_result(ExitKind::Abandoned, Ok(7)), Err(Ok(7))));
    assert!(matches!(keep_result::<i32>(ExitKind::Abandoned, Err(9)), Err(Err(9))));
}

#[test]
fn a_service_is_waited_for_before_the_workers_are_told_to_leave() {
    let (mut plan, _) = started::<S>(1);
    plan.guard.keep_service(0x40);
    plan.guard.stop_service(&mut plan.sched);
    assert_eq!(plan.guard.take_service(&plan.sched), Some(0x40));
    assert_eq!(plan.guard.take_service(&plan.sched), None);
    plan.guard.finish(&mut plan.sched, 0);
    assert!(plan.sched.finished);
}
