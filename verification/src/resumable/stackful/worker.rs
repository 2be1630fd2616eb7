//! Suspending the task that runs, and going on with another.
//!
//! A switch has two halves. The first runs on the stack that is left: it
//! picks the task to go on with and gives its context. The second runs on the
//! stack that was switched to, after the context that was left is saved: it
//! makes the books right and hands out the task that was left, for whoever
//! suspended it to publish. Publishing can therefore never race with saving.
use vstd::prelude::*;

use crate::context::{CondTransfer, Context};
use crate::interchange::{PointerInterchangeable, Transferred};
use crate::resumable::common::deque;
use crate::resumable::common::deque::WorkerRunQueue;
use crate::resumable::common::desc::{RunningTaskToken, SuspendedTaskToken, TaskDescCore};
use crate::resumable::common::pool::Node;
use crate::resumable::common::scheduler::Scheduler;
use crate::resumable::common::system::{SchedulerSystem, WorkerSystem};
use crate::resumable::common::worker::{DescWorkerOps, LocalQueue, UltWorker};
use crate::resumable::stackful::desc as stackful_desc;
use crate::resumable::stackful::desc::HasCtx;
use crate::resumable::stackful::system as stackful_system;
use crate::resumable::stackful::system::StackfulWorkerSystem;

verus! {

/// A switch that is about to be made: the context to switch to, and the task
/// that it belongs to.
pub struct PendingSwitch {
    pub to: Context,
    pub next: SuspendedTaskToken,
}

/// Whether `b` is `a` but for the workers and the saved contexts.
pub open spec fn same_but_workers_and_tasks<S: SchedulerSystem>(
    a: Scheduler<S>,
    b: Scheduler<S>,
) -> bool {
    &&& b.finished == a.finished
    &&& b.external_queue == a.external_queue
    &&& b.stack_size == a.stack_size
    &&& b.task_pool == a.task_pool
    &&& b.async_task_pool == a.async_task_pool
    &&& b.recursion_pool == a.recursion_pool
    &&& b.tasks.wf() == a.tasks.wf()
    &&& b.tasks.has_room() == a.tasks.has_room()
}

/// Whether `b` is `a` but that `next` runs on worker `wk`.
pub open spec fn runs_instead<S: SchedulerSystem>(
    a: Seq<UltWorker<S>>,
    b: Seq<UltWorker<S>>,
    wk: int,
    next: usize,
) -> bool {
    &&& b.len() == a.len()
    &&& b[wk].running() == Some(next)
    &&& b == a.update(wk, UltWorker { cur_task: b[wk].cur_task, ..a[wk] })
}

/// The two halves of every switch.
pub trait ContextSwitcher<S: SchedulerSystem>: Sized where
    <S::Desc as TaskDescCore>::Owned: HasCtx,
 {
    /// The scheduler.
    spec fn state(&self) -> Scheduler<S>;

    /// First half of a switch to a suspended task: takes its context.
    fn suspend_to_cont(&mut self, next: SuspendedTaskToken) -> (r: PendingSwitch)
        requires
            old(self).state().tasks.wf(),
            stackful_desc::is_stackful_at(old(self).state().tasks@, next.ptr()),
            stackful_desc::ctx_at(old(self).state().tasks@, next.ptr()) != 0,
        ensures
            r.next == next,
            r.to.0 == stackful_desc::ctx_at(old(self).state().tasks@, next.ptr()),
            final(self).state().workers == old(self).state().workers,
            same_but_workers_and_tasks(old(self).state(), final(self).state()),
            final(self).state().tasks@ == stackful_desc::with_ctx_at(
                old(self).state().tasks@,
                next.ptr(),
                0,
            ),
    ;

    /// Second half: the task that ran is left with the context `prev`, and
    /// `next` runs in its place.
    fn suspend_shim(
        &mut self,
        wk: usize,
        prev: Context,
        next: Transferred<SuspendedTaskToken>,
    ) -> (r: SuspendedTaskToken)
        requires
            old(self).state().tasks.wf(),
            wk < old(self).state().workers@.len(),
            old(self).state().workers@[wk as int].running() is Some,
            stackful_desc::is_stackful_at(
                old(self).state().tasks@,
                old(self).state().workers@[wk as int].running()->0,
            ),
            stackful_desc::ctx_at(
                old(self).state().tasks@,
                old(self).state().workers@[wk as int].running()->0,
            ) == 0,
        ensures
            Some(r.ptr()) == old(self).state().workers@[wk as int].running(),
            runs_instead(
                old(self).state().workers@,
                final(self).state().workers@,
                wk as int,
                next.ptr(),
            ),
            same_but_workers_and_tasks(old(self).state(), final(self).state()),
            final(self).state().tasks@ == stackful_desc::with_ctx_at(
                old(self).state().tasks@,
                r.ptr(),
                prev.0,
            ),
    ;

    /// First half of a switch that may be called off: only looks at the
    /// context.
    fn cond_suspend_to_cont(&self, next: SuspendedTaskToken) -> (r: PendingSwitch)
        requires
            stackful_desc::is_stackful_at(self.state().tasks@, next.ptr()),
            stackful_desc::ctx_at(self.state().tasks@, next.ptr()) != 0,
        ensures
            r.next == next,
            r.to.0 == stackful_desc::ctx_at(self.state().tasks@, next.ptr()),
    ;

    /// Second half, up to the decision: as in [`Self::suspend_shim`], but that
    /// the context of `next` stays in place.
    fn cond_suspend_shim(&mut self, wk: usize, prev: Context, next: SuspendedTaskToken) -> (r:
        SuspendedTaskToken)
        requires
            old(self).state().tasks.wf(),
            wk < old(self).state().workers@.len(),
            old(self).state().workers@[wk as int].running() is Some,
            stackful_desc::is_stackful_at(
                old(self).state().tasks@,
                old(self).state().workers@[wk as int].running()->0,
            ),
            stackful_desc::ctx_at(
                old(self).state().tasks@,
                old(self).state().workers@[wk as int].running()->0,
            ) == 0,
        ensures
            Some(r.ptr()) == old(self).state().workers@[wk as int].running(),
            runs_instead(
                old(self).state().workers@,
                final(self).state().workers@,
                wk as int,
                next.ptr(),
            ),
            same_but_workers_and_tasks(old(self).state(), final(self).state()),
            final(self).state().tasks@ == stackful_desc::with_ctx_at(
                old(self).state().tasks@,
                r.ptr(),
                prev.0,
            ),
    ;

    /// Second half, after the decision. Nothing left of the task that ran
    /// means that it was published: the switch is made, and the context of the
    /// task that now runs is forgotten. Otherwise the switch is called off: the
    /// task that ran goes on, and the other one is handed out again.
    fn cond_suspend_decided(&mut self, wk: usize, prev: Option<SuspendedTaskToken>) -> (r: (
        CondTransfer,
        Option<SuspendedTaskToken>,
    ))
        requires
            old(self).state().tasks.wf(),
            wk < old(self).state().workers@.len(),
            old(self).state().workers@[wk as int].running() is Some,
            stackful_desc::is_stackful_at(
                old(self).state().tasks@,
                match prev {
                    Some(p) => p.ptr(),
                    None => old(self).state().workers@[wk as int].running()->0,
                },
            ),
        ensures
            r.0 == CondTransfer::of(wk, prev is None),
            same_but_workers_and_tasks(old(self).state(), final(self).state()),
            match prev {
                None => {
                    &&& r.1 is None
                    &&& final(self).state().workers == old(self).state().workers
                    &&& final(self).state().tasks@ == stackful_desc::with_ctx_at(
                        old(self).state().tasks@,
                        old(self).state().workers@[wk as int].running()->0,
                        0,
                    )
                },
                Some(p) => {
                    &&& deque::opt_ptr(r.1) == old(self).state().workers@[wk as int].running()
                    &&& runs_instead(
                        old(self).state().workers@,
                        final(self).state().workers@,
                        wk as int,
                        p.ptr(),
                    )
                    &&& final(self).state().tasks@ == stackful_desc::with_ctx_at(
                        old(self).state().tasks@,
                        p.ptr(),
                        0,
                    )
                },
            },
    ;

    /// First half of a switch to a new stack: nothing has to be taken, since
    /// the task at `next` was never suspended.
    fn suspend_to_new(&self, stack_top: usize, next: usize) -> (r: (
        usize,
        Transferred<SuspendedTaskToken>,
    ))
        ensures
            r.0 == stack_top,
            r.1.ptr() == next,
    ;

    /// First half of leaving for good: as in [`Self::suspend_to_cont`].
    fn exit_to_cont(&mut self, next: SuspendedTaskToken) -> (r: PendingSwitch)
        requires
            old(self).state().tasks.wf(),
            stackful_desc::is_stackful_at(old(self).state().tasks@, next.ptr()),
            stackful_desc::ctx_at(old(self).state().tasks@, next.ptr()) != 0,
        ensures
            r.next == next,
            r.to.0 == stackful_desc::ctx_at(old(self).state().tasks@, next.ptr()),
            final(self).state().workers == old(self).state().workers,
            same_but_workers_and_tasks(old(self).state(), final(self).state()),
            final(self).state().tasks@ == stackful_desc::with_ctx_at(
                old(self).state().tasks@,
                next.ptr(),
                0,
            ),
    ;

    /// Second half of leaving for good: `next` runs, and nothing is saved of
    /// the task that ran, whose address is handed out.
    fn exit_shim(&mut self, wk: usize, next: Transferred<SuspendedTaskToken>) -> (r: usize)
        requires
            wk < old(self).state().workers@.len(),
            old(self).state().workers@[wk as int].running() is Some,
        ensures
            Some(r) == old(self).state().workers@[wk as int].running(),
            runs_instead(
                old(self).state().workers@,
                final(self).state().workers@,
                wk as int,
                next.ptr(),
            ),
            same_but_workers_and_tasks(old(self).state(), final(self).state()),
            final(self).state().tasks == old(self).state().tasks,
    ;
}

impl<S: SchedulerSystem> ContextSwitcher<S> for Scheduler<S> where
    <S::Desc as TaskDescCore>::Owned: HasCtx,
 {
    open spec fn state(&self) -> Scheduler<S> {
        *self
    }

    fn suspend_to_cont(&mut self, next: SuspendedTaskToken) -> (r: PendingSwitch) {
        let to = Context(next.claim_saved_context(&mut self.tasks));
        PendingSwitch { to, next }
    }

    fn suspend_shim(
        &mut self,
        wk: usize,
        prev: Context,
        next: Transferred<SuspendedTaskToken>,
    ) -> (r: SuspendedTaskToken) {
        let prev_task = self.workers[wk].take_cur_task();
        prev_task.publish_saved_context(&mut self.tasks, prev.0);
        let next_running = next.into_inner::<RunningTaskToken>();
        self.workers[wk].set_cur_task(next_running);
        assert(self.workers@ =~= old(self).workers@.update(
            wk as int,
            UltWorker {
                cur_task: self.workers@[wk as int].cur_task,
                ..old(self).workers@[wk as int]
            },
        ));
        prev_task.into_suspended()
    }

    fn cond_suspend_to_cont(&self, next: SuspendedTaskToken) -> (r: PendingSwitch) {
        let to = Context(next.peek_saved_context(&self.tasks));
        PendingSwitch { to, next }
    }

    fn cond_suspend_shim(&mut self, wk: usize, prev: Context, next: SuspendedTaskToken) -> (r:
        SuspendedTaskToken) {
        let prev_task = self.workers[wk].take_cur_task();
        prev_task.publish_saved_context(&mut self.tasks, prev.0);
        let next_running = next.into_running();
        self.workers[wk].set_cur_task(next_running);
        assert(self.workers@ =~= old(self).workers@.update(
            wk as int,
            UltWorker {
                cur_task: self.workers@[wk as int].cur_task,
                ..old(self).workers@[wk as int]
            },
        ));
        prev_task.into_suspended()
    }

    fn cond_suspend_decided(&mut self, wk: usize, prev: Option<SuspendedTaskToken>) -> (r: (
        CondTransfer,
        Option<SuspendedTaskToken>,
    )) {
        match prev {
            None => {
                let cur: usize = self.workers[wk].cur_task();
                assert(Some(cur) == old(self).workers@[wk as int].running());
                RunningTaskToken::from_raw(cur).clear_saved_context(&mut self.tasks);
                assert(self.workers == old(self).workers);
                (CondTransfer { value: wk, flag: 1 }, None)
            },
            Some(c) => {
                let c_running = c.into_running();
                c_running.clear_saved_context(&mut self.tasks);
                let next_running = self.workers[wk].take_cur_task();
                self.workers[wk].set_cur_task(c_running);
                assert(self.workers@ =~= old(self).workers@.update(
                    wk as int,
                    UltWorker {
                        cur_task: self.workers@[wk as int].cur_task,
                        ..old(self).workers@[wk as int]
                    },
                ));
                (CondTransfer { value: wk, flag: 0 }, Some(next_running.into_suspended()))
            },
        }
    }

    fn suspend_to_new(&self, stack_top: usize, next: usize) -> (r: (
        usize,
        Transferred<SuspendedTaskToken>,
    )) {
        (stack_top, Transferred::from_raw(next))
    }

    fn exit_to_cont(&mut self, next: SuspendedTaskToken) -> (r: PendingSwitch) {
        let to = Context(next.claim_saved_context(&mut self.tasks));
        PendingSwitch { to, next }
    }

    fn exit_shim(&mut self, wk: usize, next: Transferred<SuspendedTaskToken>) -> (r: usize) {
        let left = self.workers[wk].take_cur_task();
        let next_running = next.into_inner::<RunningTaskToken>();
        self.workers[wk].set_cur_task(next_running);
        assert(self.workers@ =~= old(self).workers@.update(
            wk as int,
            UltWorker {
                cur_task: self.workers@[wk as int].cur_task,
                ..old(self).workers@[wk as int]
            },
        ));
        left.into_raw()
    }
}

// ---------------------------------------------------------------------------
// What a suspending worker goes on with
// ---------------------------------------------------------------------------

/// Picks what a suspending worker goes on with where every task can be
/// switched to: the next item of its queue, or else its own loop.
pub fn pop_or_root_stackful<S: WorkerSystem>(wk: &mut UltWorker<S>) -> (r: SuspendedTaskToken)
    requires
        old(wk).deque.wf(),
        old(wk).deque.order().len() == 0 ==> old(wk).root_cont is Some,
    ensures
        final(wk).deque.wf(),
        old(wk).deque.order().len() > 0 ==> {
            &&& r.ptr() == old(wk).deque.order()[0]
            &&& final(wk).deque.order() == old(wk).deque.order().drop_first()
            &&& final(wk).deque.contents() == S::RunQueue::after_pop(old(wk).deque.contents())
            &&& final(wk).same_but_queue(*old(wk))
        },
        old(wk).deque.order().len() == 0 ==> {
            &&& Some(r) == old(wk).root_cont
            &&& final(wk).deque.order() == old(wk).deque.order()
            &&& final(wk).deque.contents() == old(wk).deque.contents()
            &&& final(wk).same_but_queue(UltWorker { root_cont: None, ..*old(wk) })
        },
{
    if let Some(c) = wk.deque.try_pop() {
        return c;
    }
    wk.take_root_cont()
}

/// A worker's own loop, as something to fall back to.
pub trait StackfulLocalQueue<S: StackfulWorkerSystem>: ContextSwitcher<S> where
    <S::Desc as TaskDescCore>::Owned: HasCtx,
 {
    /// Picks what worker `wk` goes on with.
    fn pop_or_root(&mut self, wk: usize) -> (r: SuspendedTaskToken)
        requires
            wk < old(self).state().workers@.len(),
            can_pick(old(self).state().workers@[wk as int], old(self).state().tasks@),
        ensures
            stackful_system::picked(
                old(self).state().workers@[wk as int],
                final(self).state().workers@[wk as int],
                old(self).state().tasks@,
                r.ptr(),
            ),
            only_worker_changed(old(self).state(), final(self).state(), wk as int),
    ;

    /// Parks the loop of worker `wk`.
    fn set_root_cont(&mut self, wk: usize, cont: SuspendedTaskToken)
        requires
            wk < old(self).state().workers@.len(),
            old(self).state().workers@[wk as int].root_cont is None,
            old(self).state().tasks@.dom().contains(cont.ptr()),
            old(self).state().tasks@[cont.ptr()].payload.root(),
        ensures
            final(self).state().workers@[wk as int] == (UltWorker {
                root_cont: Some(cont),
                ..old(self).state().workers@[wk as int]
            }),
            only_worker_changed(old(self).state(), final(self).state(), wk as int),
    ;
}

/// Whether worker `w` has something to go on with.
pub open spec fn can_pick<S: WorkerSystem>(
    w: UltWorker<S>,
    tasks: Map<usize, Node<S::Desc>>,
) -> bool {
    &&& w.deque.wf()
    &&& w.deque.order().len() > 0 ==> tasks.dom().contains(w.deque.order()[0])
    &&& !stackful_system::pops_queue(w.deque.order(), tasks) ==> w.root_cont is Some
}

/// Whether `b` is `a` but for worker `wk`.
pub open spec fn only_worker_changed<S: SchedulerSystem>(
    a: Scheduler<S>,
    b: Scheduler<S>,
    wk: int,
) -> bool {
    &&& b.workers@.len() == a.workers@.len()
    &&& forall|i: int|
        0 <= i < a.workers@.len() && i != wk ==> #[trigger] b.workers@[i] == a.workers@[i]
    &&& b.external_queue == a.external_queue
    &&& b.same_but_queues(a)
}

impl<S: StackfulWorkerSystem> StackfulLocalQueue<S> for Scheduler<S> where
    <S::Desc as TaskDescCore>::Owned: HasCtx,
 {
    fn pop_or_root(&mut self, wk: usize) -> (r: SuspendedTaskToken) {
        S::pop_or_root(&mut self.workers[wk], &self.tasks)
    }

    fn set_root_cont(&mut self, wk: usize, cont: SuspendedTaskToken) {
        self.workers[wk].root_cont = Some(cont);
    }
}

/// What worker `w` goes on with.
pub open spec fn pick_target<S: WorkerSystem>(
    w: UltWorker<S>,
    tasks: Map<usize, Node<S::Desc>>,
) -> usize {
    if stackful_system::pops_queue(w.deque.order(), tasks) {
        w.deque.order()[0]
    } else {
        w.parked_loop()->0
    }
}

/// Whether worker `wk` has something to go on with that can be switched to.
pub open spec fn can_suspend<S: SchedulerSystem>(s: Scheduler<S>, wk: int) -> bool where
    <S::Desc as TaskDescCore>::Owned: HasCtx,
 {
    let target = pick_target(s.workers@[wk], s.tasks@);
    &&& 0 <= wk < s.workers@.len()
    &&& s.tasks.wf()
    &&& can_pick(s.workers@[wk], s.tasks@)
    &&& stackful_desc::is_stackful_at(s.tasks@, target)
    &&& stackful_desc::ctx_at(s.tasks@, target) != 0
}

/// Whether the task that runs on worker `wk` can be left.
pub open spec fn can_leave<S: SchedulerSystem>(s: Scheduler<S>, wk: int) -> bool where
    <S::Desc as TaskDescCore>::Owned: HasCtx,
 {
    &&& 0 <= wk < s.workers@.len()
    &&& s.tasks.wf()
    &&& s.workers@[wk].running() is Some
    &&& stackful_desc::is_stackful_at(s.tasks@, s.workers@[wk].running()->0)
    &&& stackful_desc::ctx_at(s.tasks@, s.workers@[wk].running()->0) == 0
}

/// Whether `b` is `a` after worker `wk` left the task that ran with the context
/// `ctx` and went on with `next`, and the task that was left is in none of the
/// books yet.
pub open spec fn left_for<S: SchedulerSystem>(
    a: Scheduler<S>,
    b: Scheduler<S>,
    wk: int,
    ctx: usize,
    next: usize,
) -> bool where <S::Desc as TaskDescCore>::Owned: HasCtx {
    &&& runs_instead(a.workers@, b.workers@, wk, next)
    &&& b.tasks@ == stackful_desc::with_ctx_at(a.tasks@, a.workers@[wk].running()->0, ctx)
    &&& same_but_workers_and_tasks(a, b)
}

/// Whether `b` is `a` after worker `wk` called the switch off and went on with
/// the task `prev`: the task that would have run is back where it was picked
/// from.
pub open spec fn called_off<S: SchedulerSystem>(
    a: Scheduler<S>,
    b: Scheduler<S>,
    wk: int,
    prev: usize,
) -> bool where <S::Desc as TaskDescCore>::Owned: HasCtx {
    let next = a.workers@[wk].running()->0;
    let u = a.workers@[wk];
    let v = b.workers@[wk];
    &&& b.workers@.len() == a.workers@.len()
    &&& forall|i: int|
        0 <= i < a.workers@.len() && i != wk ==> #[trigger] b.workers@[i] == a.workers@[i]
    &&& v.running() == Some(prev)
    &&& if a.tasks@[next].payload.root() {
        &&& v.parked_loop() == Some(next)
        &&& v.deque == u.deque
    } else {
        &&& v.root_cont == u.root_cont
        &&& v.deque.order() == seq![next] + u.deque.order()
        &&& v.deque.contents() == S::RunQueue::after_push(u.deque.contents(), next)
        &&& v.deque.wf()
    }
    &&& v.same_but_queue(
        UltWorker { cur_task: v.cur_task, root_cont: v.root_cont, deque: v.deque, ..u },
    )
    &&& b.tasks@ == stackful_desc::with_ctx_at(a.tasks@, prev, 0)
    &&& same_but_workers_and_tasks(a, b)
}

/// Suspending the task that runs in favour of whatever is next.
pub trait StackfulWorker<S: StackfulWorkerSystem>: StackfulLocalQueue<S> where
    <S::Desc as TaskDescCore>::Owned: HasCtx,
 {
    /// First half of suspending to whatever is next.
    fn suspend_to_sched(&mut self, wk: usize) -> (r: PendingSwitch)
        requires
            can_suspend(old(self).state(), wk as int),
        ensures
            r.next.ptr() == pick_target(
                old(self).state().workers@[wk as int],
                old(self).state().tasks@,
            ),
            r.to.0 == stackful_desc::ctx_at(old(self).state().tasks@, r.next.ptr()),
            stackful_system::picked(
                old(self).state().workers@[wk as int],
                final(self).state().workers@[wk as int],
                old(self).state().tasks@,
                r.next.ptr(),
            ),
            final(self).state().workers@ == old(self).state().workers@.update(
                wk as int,
                final(self).state().workers@[wk as int],
            ),
            final(self).state().tasks@ == stackful_desc::with_ctx_at(
                old(self).state().tasks@,
                r.next.ptr(),
                0,
            ),
            same_but_workers_and_tasks(old(self).state(), final(self).state()),
    ;

    /// First half of a suspension that may be called off.
    fn cond_suspend_to_sched(&mut self, wk: usize) -> (r: PendingSwitch)
        requires
            can_suspend(old(self).state(), wk as int),
        ensures
            r.next.ptr() == pick_target(
                old(self).state().workers@[wk as int],
                old(self).state().tasks@,
            ),
            r.to.0 == stackful_desc::ctx_at(old(self).state().tasks@, r.next.ptr()),
            stackful_system::picked(
                old(self).state().workers@[wk as int],
                final(self).state().workers@[wk as int],
                old(self).state().tasks@,
                r.next.ptr(),
            ),
            only_worker_changed(old(self).state(), final(self).state(), wk as int),
    ;

    /// The end of a suspension that may be called off. When it is, the task
    /// that would have run goes back where it was picked from.
    fn cond_suspend_finish(&mut self, wk: usize, prev: Option<SuspendedTaskToken>) -> (r:
        CondTransfer)
        requires
            wk < old(self).state().workers@.len(),
            old(self).state().tasks.wf(),
            old(self).state().workers@[wk as int].running() is Some,
            old(self).state().workers@[wk as int].deque.wf(),
            old(self).state().tasks@.dom().contains(
                old(self).state().workers@[wk as int].running()->0,
            ),
            match prev {
                Some(p) => {
                    &&& stackful_desc::is_stackful_at(old(self).state().tasks@, p.ptr())
                    &&& p.ptr() != old(self).state().workers@[wk as int].running()->0
                    &&& old(self).state().tasks@[old(self).state().workers@[wk as int].running()->0].payload.root()
                        ==> old(self).state().workers@[wk as int].root_cont is None
                },
                None => stackful_desc::is_stackful_at(
                    old(self).state().tasks@,
                    old(self).state().workers@[wk as int].running()->0,
                ),
            },
        ensures
            r == CondTransfer::of(wk, prev is None),
            match prev {
                None => {
                    &&& final(self).state().workers == old(self).state().workers
                    &&& final(self).state().tasks@ == stackful_desc::with_ctx_at(
                        old(self).state().tasks@,
                        old(self).state().workers@[wk as int].running()->0,
                        0,
                    )
                    &&& same_but_workers_and_tasks(old(self).state(), final(self).state())
                },
                Some(p) => called_off(old(self).state(), final(self).state(), wk as int, p.ptr()),
            },
    ;

    /// First half of leaving for good in favour of whatever is next.
    fn exit_to_sched(&mut self, wk: usize) -> (r: PendingSwitch)
        requires
            can_suspend(old(self).state(), wk as int),
        ensures
            r.next.ptr() == pick_target(
                old(self).state().workers@[wk as int],
                old(self).state().tasks@,
            ),
            r.to.0 == stackful_desc::ctx_at(old(self).state().tasks@, r.next.ptr()),
            stackful_system::picked(
                old(self).state().workers@[wk as int],
                final(self).state().workers@[wk as int],
                old(self).state().tasks@,
                r.next.ptr(),
            ),
            final(self).state().workers@ == old(self).state().workers@.update(
                wk as int,
                final(self).state().workers@[wk as int],
            ),
            final(self).state().tasks@ == stackful_desc::with_ctx_at(
                old(self).state().tasks@,
                r.next.ptr(),
                0,
            ),
            same_but_workers_and_tasks(old(self).state(), final(self).state()),
    ;

    /// Second half of a yield: the task that ran goes behind everything that
    /// is queued.
    fn yield_now(&mut self, wk: usize, prev: Context, next: Transferred<SuspendedTaskToken>)
        requires
            can_leave(old(self).state(), wk as int),
            old(self).state().workers@[wk as int].deque.wf(),
        ensures
            ({
                let a = old(self).state();
                let b = final(self).state();
                let u = a.workers@[wk as int];
                let v = b.workers@[wk as int];
                &&& v.running() == Some(next.ptr())
                &&& v.deque.wf()
                &&& v.deque.order() == u.deque.order().push(u.running()->0)
                &&& v.deque.contents() == S::RunQueue::after_defer(
                    u.deque.contents(),
                    u.running()->0,
                )
                &&& v.same_but_queue(UltWorker { cur_task: v.cur_task, ..u })
                &&& b.workers@ == a.workers@.update(wk as int, v)
                &&& b.tasks@ == stackful_desc::with_ctx_at(a.tasks@, u.running()->0, prev.0)
                &&& same_but_workers_and_tasks(a, b)
            }),
    ;

    /// Second half of running a task from the worker's own loop: the loop is
    /// parked for the task to fall back to.
    fn run_land(&mut self, wk: usize, prev: Context, next: Transferred<SuspendedTaskToken>)
        requires
            can_leave(old(self).state(), wk as int),
            old(self).state().tasks@[old(self).state().workers@[wk as int].running()->0].payload.root(),
            old(self).state().workers@[wk as int].root_cont is None,
        ensures
            ({
                let a = old(self).state();
                let b = final(self).state();
                let u = a.workers@[wk as int];
                let v = b.workers@[wk as int];
                &&& v.running() == Some(next.ptr())
                &&& v.parked_loop() == u.running()
                &&& v == (UltWorker { cur_task: v.cur_task, root_cont: v.root_cont, ..u })
                &&& b.workers@ == a.workers@.update(wk as int, v)
                &&& b.tasks@ == stackful_desc::with_ctx_at(a.tasks@, u.running()->0, prev.0)
                &&& same_but_workers_and_tasks(a, b)
            }),
    ;
}

impl<S: StackfulWorkerSystem> StackfulWorker<S> for Scheduler<S> where
    <S::Desc as TaskDescCore>::Owned: HasCtx,
 {
    fn suspend_to_sched(&mut self, wk: usize) -> (r: PendingSwitch) {
        let next = self.pop_or_root(wk);
        assert(self.workers@ =~= old(self).workers@.update(wk as int, self.workers@[wk as int]));
        self.suspend_to_cont(next)
    }

    fn cond_suspend_to_sched(&mut self, wk: usize) -> (r: PendingSwitch) {
        let next = self.pop_or_root(wk);
        self.cond_suspend_to_cont(next)
    }

    fn cond_suspend_finish(&mut self, wk: usize, prev: Option<SuspendedTaskToken>) -> (r:
        CondTransfer) {
        let ghost before = *self;
        let ghost next = self.workers@[wk as int].running()->0;
        proof {
            if prev is Some {
                crate::resumable::stackful::desc::lemma_ctx_at(self.tasks@, prev->0.ptr(), 0);
            }
        }
        let (transfer, handed_back) = self.cond_suspend_decided(wk, prev);
        if let Some(c) = handed_back {
            assert(c.ptr() == next);
            assert(self.tasks@[next] == before.tasks@[next]);
            if c.is_root(&self.tasks) {
                self.set_root_cont(wk, c);
            } else {
                self.workers[wk].push(c);
            }
        }
        transfer
    }

    fn exit_to_sched(&mut self, wk: usize) -> (r: PendingSwitch) {
        let next = self.pop_or_root(wk);
        assert(self.workers@ =~= old(self).workers@.update(wk as int, self.workers@[wk as int]));
        self.exit_to_cont(next)
    }

    fn yield_now(&mut self, wk: usize, prev: Context, next: Transferred<SuspendedTaskToken>) {
        let prev_task = self.suspend_shim(wk, prev, next);
        self.workers[wk].defer(prev_task);
        assert(self.workers@ =~= old(self).workers@.update(wk as int, self.workers@[wk as int]));
    }

    fn run_land(&mut self, wk: usize, prev: Context, next: Transferred<SuspendedTaskToken>) {
        proof {
            crate::resumable::stackful::desc::lemma_ctx_at(
                self.tasks@,
                self.workers@[wk as int].running()->0,
                prev.0,
            );
        }
        let prev_task = self.suspend_shim(wk, prev, next);
        self.set_root_cont(wk, prev_task);
        assert(self.workers@ =~= old(self).workers@.update(wk as int, self.workers@[wk as int]));
    }
}

/// A suspension that is called off leaves no trace: the same task runs, the
/// same tasks are queued in the same order, the worker's own loop is parked as
/// before, and every saved context is as it was.
pub proof fn law_called_off_suspension_leaves_no_trace<S: SchedulerSystem>(
    s0: Scheduler<S>,
    s1: Scheduler<S>,
    s2: Scheduler<S>,
    s3: Scheduler<S>,
    wk: int,
    ctx: usize,
    next: usize,
) where <S::Desc as TaskDescCore>::Owned: HasCtx
    requires
        can_suspend(s0, wk),
        can_leave(s0, wk),
        next == pick_target(s0.workers@[wk], s0.tasks@),
        next != s0.workers@[wk].running()->0,
        s0.tasks@[next].payload.root() == !stackful_system::pops_queue(
            s0.workers@[wk].deque.order(),
            s0.tasks@,
        ),
        stackful_system::picked(s0.workers@[wk], s1.workers@[wk], s0.tasks@, next),
        only_worker_changed(s0, s1, wk),
        left_for(s1, s2, wk, ctx, next),
        called_off(s2, s3, wk, s0.workers@[wk].running()->0),
    ensures
        s3.tasks@ == s0.tasks@,
        s3.workers@.len() == s0.workers@.len(),
        forall|i: int|
            0 <= i < s0.workers@.len() && i != wk ==> #[trigger] s3.workers@[i] == s0.workers@[i],
        s3.workers@[wk].running() == s0.workers@[wk].running(),
        s3.workers@[wk].deque.order() == s0.workers@[wk].deque.order(),
        s3.workers@[wk].parked_loop() == s0.workers@[wk].parked_loop(),
        s3.workers@[wk].steal_seed == s0.workers@[wk].steal_seed,
        same_but_workers_and_tasks(s0, s3),
{
    let p = s0.workers@[wk].running()->0;
    crate::resumable::stackful::desc::lemma_ctx_at(s0.tasks@, p, ctx);
    crate::resumable::stackful::desc::lemma_ctx_restored(s0.tasks@, p, ctx);
    assert(s2.tasks@[next] == s0.tasks@[next]);
    assert(s2.workers@[wk].deque == s1.workers@[wk].deque);
    if stackful_system::pops_queue(s0.workers@[wk].deque.order(), s0.tasks@) {
        assert(seq![next] + s0.workers@[wk].deque.order().drop_first()
            =~= s0.workers@[wk].deque.order());
    }
    assert forall|i: int| 0 <= i < s0.workers@.len() && i != wk implies #[trigger] s3.workers@[i]
        == s0.workers@[i] by {
        assert(s1.workers@[i] == s0.workers@[i]);
        assert(s2.workers@[i] == s1.workers@[i]);
    }
}

/// What stays when two schedulers are said to be the same but for some part:
/// everything outside that part.
pub proof fn law_nothing_else_changes<S: SchedulerSystem>(
    a: Scheduler<S>,
    b: Scheduler<S>,
    wk: int,
    next: usize,
)
    requires
        0 <= wk < a.workers@.len(),
    ensures
        same_but_workers_and_tasks(a, b) ==> b == (Scheduler::<S> {
            workers: b.workers,
            tasks: b.tasks,
            ..a
        }) && b.tasks.wf() == a.tasks.wf(),
        only_worker_changed(a, b, wk) ==> {
            &&& b == (Scheduler::<S> { workers: b.workers, ..a })
            &&& b.workers@.len() == a.workers@.len()
            &&& forall|i: int|
                0 <= i < a.workers@.len() && i != wk ==> #[trigger] b.workers@[i] == a.workers@[i]
        },
        runs_instead(a.workers@, b.workers@, wk, next) ==> {
            &&& b.workers@.len() == a.workers@.len()
            &&& b.workers@[wk].cur_task matches Some(t) && t.ptr() == next
            &&& b.workers@[wk] == (UltWorker::<S> {
                cur_task: b.workers@[wk].cur_task,
                ..a.workers@[wk]
            })
            &&& forall|i: int|
                0 <= i < a.workers@.len() && i != wk ==> #[trigger] b.workers@[i] == a.workers@[i]
        },
{
}

/// A task that is left keeps the context that it was left with until somebody
/// switches to it, and every other task keeps its own; the other task runs in its
/// place, on the same worker.
pub proof fn law_task_is_left_with_its_context<S: SchedulerSystem>(
    a: Scheduler<S>,
    b: Scheduler<S>,
    wk: int,
    ctx: usize,
    next: usize,
    other: usize,
) where <S::Desc as TaskDescCore>::Owned: HasCtx
    requires
        can_leave(a, wk),
        left_for(a, b, wk, ctx, next),
    ensures
        ({
            let left = a.workers@[wk].running()->0;
            &&& b.workers@[wk].running() == Some(next)
            &&& b.tasks@[left].payload.spec_owned().spec_ctx() == ctx
            &&& b.tasks@[left].payload.word() == a.tasks@[left].payload.word()
            &&& b.tasks@.dom() == a.tasks@.dom()
            &&& other != left ==> b.tasks@[other] == a.tasks@[other]
            &&& b.workers@[wk].deque == a.workers@[wk].deque
            &&& b.external_queue == a.external_queue
        }),
{
    stackful_desc::lemma_ctx_at(a.tasks@, a.workers@[wk].running()->0, ctx);
}

/// A suspension that is called off puts the task that would have run back where
/// it came from: the worker's own loop is parked again, and any other task is the
/// next to run. The task that was to be left runs, and has no saved context.
pub proof fn law_called_off_switch_is_undone<S: SchedulerSystem>(
    a: Scheduler<S>,
    b: Scheduler<S>,
    wk: int,
    prev: usize,
    other: usize,
) where <S::Desc as TaskDescCore>::Owned: HasCtx
    requires
        0 <= wk < a.workers@.len(),
        stackful_desc::is_stackful_at(a.tasks@, prev),
        called_off(a, b, wk, prev),
    ensures
        ({
            let next = a.workers@[wk].running()->0;
            let u = a.workers@[wk];
            let v = b.workers@[wk];
            &&& v.running() == Some(prev)
            &&& b.tasks@[prev].payload.spec_owned().spec_ctx() == 0
            &&& other != prev ==> b.tasks@[other] == a.tasks@[other]
            &&& a.tasks@[next].payload.root() ==> v.parked_loop() == Some(next)
                && v.deque.order() == u.deque.order()
            &&& !a.tasks@[next].payload.root() ==> v.root_cont == u.root_cont
                && v.deque.order() == seq![next] + u.deque.order()
            &&& v.num == u.num && v.root_desc == u.root_desc && v.steal_seed == u.steal_seed
            &&& b.workers@.len() == a.workers@.len()
            &&& forall|i: int|
                0 <= i < a.workers@.len() && i != wk ==> #[trigger] b.workers@[i] == a.workers@[i]
            &&& b == (Scheduler::<S> { workers: b.workers, tasks: b.tasks, ..a })
        }),
{
    stackful_desc::lemma_ctx_at(a.tasks@, prev, 0);
}

/// What a worker is said to go on with is what it goes on with.
pub proof fn law_pick_target_is_what_is_picked<S: WorkerSystem>(
    a: UltWorker<S>,
    b: UltWorker<S>,
    tasks: Map<usize, Node<S::Desc>>,
    r: usize,
)
    requires
        stackful_system::picked(a, b, tasks, r),
    ensures
        r == pick_target(a, tasks),
{
}

} // verus!
