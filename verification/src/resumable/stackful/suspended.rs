//! The one-place slot that a waiting task parks in.
//!
//! Every operation that suspends has a first half, which gives the switch to
//! make, and a second half, which runs after the switch and publishes the task
//! that was left.
use vstd::prelude::*;

use crate::context::{CondTransfer, Context};
use crate::interchange::{AtomicSlot, PointerInterchangeable, Transferred};
use crate::resumable::common::deque;
use crate::resumable::common::deque::WorkerRunQueue;
use crate::resumable::common::desc::{SuspendedTaskToken, TaskDescCore};
use crate::resumable::common::scheduler::Scheduler;
use crate::resumable::common::system::SchedulerSystem;
use crate::resumable::common::worker::{LocalQueue, UltWorker};
use crate::resumable::stackful::desc as stackful_desc;
use crate::resumable::stackful::desc::HasCtx;
use crate::resumable::stackful::system::StackfulWorkerSystem;
use crate::resumable::stackful::worker as stackful_worker;
use crate::resumable::stackful::worker::{ContextSwitcher, PendingSwitch, StackfulWorker};

verus! {

/// Whether `b` is `a` after the continuation `c` was made the next to run on
/// worker `wk`.
pub open spec fn pushed_to<S: SchedulerSystem>(
    a: Scheduler<S>,
    b: Scheduler<S>,
    wk: int,
    c: usize,
) -> bool {
    &&& stackful_worker::only_worker_changed(a, b, wk)
    &&& b.workers@[wk].deque.wf()
    &&& b.workers@[wk].deque.order() == seq![c] + a.workers@[wk].deque.order()
    &&& b.workers@[wk].deque.contents() == S::RunQueue::after_push(
        a.workers@[wk].deque.contents(),
        c,
    )
    &&& b.workers@[wk].same_but_queue(a.workers@[wk])
}

/// Whether `b` is `a` after worker `wk` left the task that ran with the context
/// `ctx` for `next`, and made the task that was left the next to run.
pub open spec fn left_and_pushed<S: SchedulerSystem>(
    a: Scheduler<S>,
    b: Scheduler<S>,
    wk: int,
    ctx: usize,
    next: usize,
) -> bool where <S::Desc as TaskDescCore>::Owned: HasCtx {
    let u = a.workers@[wk];
    let v = b.workers@[wk];
    &&& v.running() == Some(next)
    &&& v.deque.wf()
    &&& v.deque.order() == seq![u.running()->0] + u.deque.order()
    &&& v.deque.contents() == S::RunQueue::after_push(u.deque.contents(), u.running()->0)
    &&& v.same_but_queue(UltWorker { cur_task: v.cur_task, ..u })
    &&& b.workers@ == a.workers@.update(wk, v)
    &&& b.tasks@ == stackful_desc::with_ctx_at(a.tasks@, u.running()->0, ctx)
    &&& stackful_worker::same_but_workers_and_tasks(a, b)
}

/// Makes `c` the next continuation to run on worker `wk`.
pub fn push_to<S: SchedulerSystem>(sched: &mut Scheduler<S>, wk: usize, c: SuspendedTaskToken)
    requires
        wk < old(sched).workers@.len(),
        old(sched).workers@[wk as int].deque.wf(),
    ensures
        pushed_to(*old(sched), *final(sched), wk as int, c.ptr()),
{
    sched.workers[wk].push(c);
}

/// A slot for one parked task.
pub trait StackfulOnlyResumableCore: Sized {
    /// The address of the parked task.
    spec fn parked(&self) -> Option<usize>;

    /// An empty slot.
    fn new_empty() -> (r: Self)
        ensures
            r.parked() is None,
    ;

    /// The slot itself.
    fn cont(&self) -> (r: &AtomicSlot<SuspendedTaskToken>)
        ensures
            r@ == self.parked(),
    ;

    /// The slot itself, to change it.
    fn cont_mut(&mut self) -> (r: &mut AtomicSlot<SuspendedTaskToken>)
        ensures
            r@ == old(self).parked(),
            final(self).parked() == final(r)@,
    ;

    /// Takes the parked task, which has to be there.
    fn take_cont(&mut self) -> (r: SuspendedTaskToken)
        requires
            old(self).parked() is Some,
        ensures
            old(self).parked() == Some(r.ptr()),
            final(self).parked() is None,
    {
        let c = self.cont_mut().take();
        c.unwrap()
    }

    /// Whether a task is parked.
    fn is_set(&self) -> (r: bool)
        ensures
            r == self.parked() is Some,
    {
        self.cont().is_set()
    }

    /// Parks a task.
    fn park(&mut self, c: SuspendedTaskToken)
        requires
            c.ptr() != 0,
        ensures
            final(self).parked() == Some(c.ptr()),
    {
        self.cont_mut().publish(c);
    }
}

/// Wakes the parked task: it is the next to run on worker `wk`.
pub fn notify<W: StackfulOnlyResumableCore, S: SchedulerSystem>(
    slot: &mut W,
    sched: &mut Scheduler<S>,
    wk: usize,
)
    requires
        old(slot).parked() is Some,
        wk < old(sched).workers@.len(),
        old(sched).workers@[wk as int].deque.wf(),
    ensures
        final(slot).parked() is None,
        pushed_to(*old(sched), *final(sched), wk as int, old(slot).parked()->0),
{
    let c = slot.take_cont();
    push_to(sched, wk, c);
}

/// Second half of a wait: the task that was left is parked in the slot.
pub fn wait_with<W: StackfulOnlyResumableCore, S: SchedulerSystem>(
    slot: &mut W,
    sched: &mut Scheduler<S>,
    wk: usize,
    prev: Context,
    next: Transferred<SuspendedTaskToken>,
) where <S::Desc as TaskDescCore>::Owned: HasCtx
    requires
        stackful_worker::can_leave(*old(sched), wk as int),
        old(sched).workers@[wk as int].running()->0 != 0,
    ensures
        final(slot).parked() == old(sched).workers@[wk as int].running(),
        stackful_worker::left_for(*old(sched), *final(sched), wk as int, prev.0, next.ptr()),
{
    let c = sched.suspend_shim(wk, prev, next);
    slot.park(c);
}

/// Second half of a wait that may be called off, up to the decision.
pub fn wait_with_cond<W: StackfulOnlyResumableCore, S: SchedulerSystem>(
    slot: &mut W,
    sched: &mut Scheduler<S>,
    wk: usize,
    prev: Context,
    next: SuspendedTaskToken,
) where <S::Desc as TaskDescCore>::Owned: HasCtx
    requires
        stackful_worker::can_leave(*old(sched), wk as int),
        old(sched).workers@[wk as int].running()->0 != 0,
    ensures
        final(slot).parked() == old(sched).workers@[wk as int].running(),
        stackful_worker::left_for(*old(sched), *final(sched), wk as int, prev.0, next.ptr()),
{
    let c = sched.cond_suspend_shim(wk, prev, next);
    slot.park(c);
}

/// The decision of a wait that may be called off: when it is, the parked
/// task is taken out again and goes on.
pub fn wait_with_cond_decided<W: StackfulOnlyResumableCore, S: StackfulWorkerSystem>(
    slot: &mut W,
    sched: &mut Scheduler<S>,
    wk: usize,
    keep: bool,
) -> (r: CondTransfer) where <S::Desc as TaskDescCore>::Owned: HasCtx
    requires
        old(slot).parked() is Some,
        wk < old(sched).workers@.len(),
        old(sched).tasks.wf(),
        old(sched).workers@[wk as int].running() is Some,
        old(sched).workers@[wk as int].deque.wf(),
        stackful_desc::is_stackful_at(old(sched).tasks@, old(sched).workers@[wk as int].running()->0),
        stackful_desc::is_stackful_at(old(sched).tasks@, old(slot).parked()->0),
        old(slot).parked()->0 != old(sched).workers@[wk as int].running()->0,
        old(sched).tasks@[old(sched).workers@[wk as int].running()->0].payload.root() ==> old(
            sched,
        ).workers@[wk as int].root_cont is None,
    ensures
        r == CondTransfer::of(wk, keep),
        keep ==> {
            &&& final(slot).parked() == old(slot).parked()
            &&& final(sched).workers == old(sched).workers
            &&& final(sched).tasks@ == stackful_desc::with_ctx_at(
                old(sched).tasks@,
                old(sched).workers@[wk as int].running()->0,
                0,
            )
            &&& stackful_worker::same_but_workers_and_tasks(*old(sched), *final(sched))
        },
        !keep ==> {
            &&& final(slot).parked() is None
            &&& stackful_worker::called_off(*old(sched), *final(sched), wk as int, old(slot).parked()->0)
        },
{
    if keep {
        sched.cond_suspend_finish(wk, None)
    } else {
        let c = slot.take_cont();
        sched.cond_suspend_finish(wk, Some(c))
    }
}

/// First half of going on with the parked task at once.
pub fn enter<W: StackfulOnlyResumableCore, S: SchedulerSystem>(
    slot: &mut W,
    sched: &mut Scheduler<S>,
) -> (r: PendingSwitch) where
    <S::Desc as TaskDescCore>::Owned: HasCtx,

    requires
        old(slot).parked() is Some,
        old(sched).tasks.wf(),
        stackful_desc::is_stackful_at(old(sched).tasks@, old(slot).parked()->0),
        stackful_desc::ctx_at(old(sched).tasks@, old(slot).parked()->0) != 0,
    ensures
        final(slot).parked() is None,
        Some(r.next.ptr()) == old(slot).parked(),
        r.to.0 == stackful_desc::ctx_at(old(sched).tasks@, old(slot).parked()->0),
        final(sched).workers == old(sched).workers,
        final(sched).tasks@ == stackful_desc::with_ctx_at(old(sched).tasks@, old(slot).parked()->0, 0),
        stackful_worker::same_but_workers_and_tasks(*old(sched), *final(sched)),
{
    let c = slot.take_cont();
    sched.suspend_to_cont(c)
}

/// First half of parking in `slot` while going on with the task parked in
/// `next`. The second half is [`wait_with`].
pub fn swap<W: StackfulOnlyResumableCore, S: SchedulerSystem>(
    slot: &W,
    next: &mut W,
    sched: &mut Scheduler<S>,
) -> (r: PendingSwitch) where <S::Desc as TaskDescCore>::Owned: HasCtx
    requires
        slot.parked() is None,
        old(next).parked() is Some,
        old(sched).tasks.wf(),
        stackful_desc::is_stackful_at(old(sched).tasks@, old(next).parked()->0),
        stackful_desc::ctx_at(old(sched).tasks@, old(next).parked()->0) != 0,
    ensures
        final(next).parked() is None,
        Some(r.next.ptr()) == old(next).parked(),
        r.to.0 == stackful_desc::ctx_at(old(sched).tasks@, old(next).parked()->0),
        final(sched).workers == old(sched).workers,
        final(sched).tasks@ == stackful_desc::with_ctx_at(old(sched).tasks@, old(next).parked()->0, 0),
        stackful_worker::same_but_workers_and_tasks(*old(sched), *final(sched)),
{
    let c = next.take_cont();
    sched.suspend_to_cont(c)
}

/// Second half of going on with a parked task at once: the task that was left
/// is the next to run.
pub fn enter_land<S: SchedulerSystem>(
    sched: &mut Scheduler<S>,
    wk: usize,
    prev: Context,
    next: Transferred<SuspendedTaskToken>,
) where <S::Desc as TaskDescCore>::Owned: HasCtx
    requires
        stackful_worker::can_leave(*old(sched), wk as int),
        old(sched).workers@[wk as int].deque.wf(),
    ensures
        left_and_pushed(*old(sched), *final(sched), wk as int, prev.0, next.ptr()),
{
    let c = sched.suspend_shim(wk, prev, next);
    sched.workers[wk].push(c);
    assert(sched.workers@ =~= old(sched).workers@.update(wk as int, sched.workers@[wk as int]));
}

/// The slot of systems whose tasks all have stacks of their own.
pub struct BasicStackfulOnlyResumable {
    slot: AtomicSlot<SuspendedTaskToken>,
}

impl BasicStackfulOnlyResumable {
    /// An empty slot.
    pub fn new() -> (r: Self)
        ensures
            r.parked() is None,
    {
        BasicStackfulOnlyResumable { slot: AtomicSlot::empty() }
    }
}

impl StackfulOnlyResumableCore for BasicStackfulOnlyResumable {
    closed spec fn parked(&self) -> Option<usize> {
        self.slot@
    }

    fn new_empty() -> (r: Self) {
        BasicStackfulOnlyResumable::new()
    }

    fn cont(&self) -> (r: &AtomicSlot<SuspendedTaskToken>) {
        &self.slot
    }

    fn cont_mut(&mut self) -> (r: &mut AtomicSlot<SuspendedTaskToken>) {
        &mut self.slot
    }
}

/// Waking gives back exactly what waiting parked: a task that waits and is
/// then notified is the next to run, with the context it was left with, and
/// nothing else has changed.
pub proof fn law_notify_resumes_the_waiter<S: SchedulerSystem>(
    s0: Scheduler<S>,
    s1: Scheduler<S>,
    s2: Scheduler<S>,
    wk: int,
    waker_wk: int,
    ctx: usize,
    next: usize,
) where <S::Desc as TaskDescCore>::Owned: HasCtx
    requires
        stackful_worker::can_leave(s0, wk),
        stackful_worker::left_for(s0, s1, wk, ctx, next),
        0 <= waker_wk < s1.workers@.len(),
        pushed_to(s1, s2, waker_wk, s0.workers@[wk].running()->0),
    ensures
        s2.workers@[waker_wk].deque.order()[0] == s0.workers@[wk].running()->0,
        stackful_desc::ctx_at(s2.tasks@, s0.workers@[wk].running()->0) == ctx,
        forall|p: usize|
            p != s0.workers@[wk].running()->0 && s0.tasks@.dom().contains(p)
                ==> #[trigger] s2.tasks@[p] == s0.tasks@[p],
{
    let p = s0.workers@[wk].running()->0;
    crate::resumable::stackful::desc::lemma_ctx_at(s0.tasks@, p, ctx);
}

/// A task that is woken goes in front of everything that its worker already
/// had, and nothing else changes: no other worker, no task, nothing that waits
/// outside.
pub proof fn law_woken_task_is_next<S: SchedulerSystem>(
    a: Scheduler<S>,
    b: Scheduler<S>,
    wk: int,
    c: usize,
)
    requires
        0 <= wk < a.workers@.len(),
        pushed_to(a, b, wk, c),
    ensures
        b.workers@[wk].deque.wf(),
        b.workers@[wk].deque.order().len() == a.workers@[wk].deque.order().len() + 1,
        b.workers@[wk].deque.order()[0] == c,
        b.workers@[wk].deque.order().skip(1) == a.workers@[wk].deque.order(),
        b.workers@[wk] == (UltWorker::<S> { deque: b.workers@[wk].deque, ..a.workers@[wk] }),
        b == (Scheduler::<S> { workers: b.workers, ..a }),
        b.workers@.len() == a.workers@.len(),
        forall|i: int|
            0 <= i < a.workers@.len() && i != wk ==> #[trigger] b.workers@[i] == a.workers@[i],
{
    assert(b.workers@[wk].deque.order().skip(1) =~= a.workers@[wk].deque.order());
}

/// A task that makes way for a parked one is not lost: it comes next on the same
/// worker, before everything that was queued there, with the context that it was
/// left with.
pub proof fn law_task_that_makes_way_is_next<S: SchedulerSystem>(
    a: Scheduler<S>,
    b: Scheduler<S>,
    wk: int,
    ctx: usize,
    next: usize,
    other: usize,
) where <S::Desc as TaskDescCore>::Owned: HasCtx
    requires
        stackful_worker::can_leave(a, wk),
        left_and_pushed(a, b, wk, ctx, next),
    ensures
        b.workers@.len() == a.workers@.len(),
        b.workers@[wk].cur_task matches Some(t) && t.ptr() == next,
        b.workers@[wk].deque.order().len() == a.workers@[wk].deque.order().len() + 1,
        Some(b.workers@[wk].deque.order()[0]) == a.workers@[wk].running(),
        b.workers@[wk].deque.order().skip(1) == a.workers@[wk].deque.order(),
        b.workers@[wk] == (UltWorker::<S> {
            deque: b.workers@[wk].deque,
            cur_task: b.workers@[wk].cur_task,
            ..a.workers@[wk]
        }),
        forall|i: int|
            0 <= i < a.workers@.len() && i != wk ==> #[trigger] b.workers@[i] == a.workers@[i],
        b == (Scheduler::<S> { workers: b.workers, tasks: b.tasks, ..a }),
        b.tasks@.dom() =~= a.tasks@.dom(),
        b.tasks@[a.workers@[wk].running()->0].payload.spec_owned().spec_ctx() == ctx,
        Some(other) != a.workers@[wk].running() && a.tasks@.dom().contains(other)
            ==> b.tasks@[other] == a.tasks@[other],
{
    let p = a.workers@[wk].running()->0;
    assert(b.workers@[wk].deque.order().skip(1) =~= a.workers@[wk].deque.order());
    crate::resumable::stackful::desc::lemma_ctx_at(a.tasks@, p, ctx);
}

} // verus!
