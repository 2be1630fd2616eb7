//! Setting a system up so that the caller goes on as one of its tasks.
//!
//! The loop of worker 0 gets a stack of its own and the descriptor that every
//! worker's own loop has. The caller's native stack gets a descriptor that is
//! not one of a loop: it is queued like any other task, and may go on, once
//! the loop picks it up, on any worker. At the end the caller suspends again,
//! and the loop of worker 0, when all others have left, leaves for good in
//! favour of the caller.
use core::marker::PhantomData;
use vstd::multiset::Multiset;
use vstd::prelude::*;

use crate::context::Context;
use crate::interchange::{PointerInterchangeable, Transferred};
use crate::resumable::common::deque::WorkerRunQueue;
use crate::resumable::common::desc::{
    HasExternalQueue, RunningTaskToken, SuspendedTaskToken, TaskDescAlloc, TaskDescCore,
};
use crate::resumable::common::external_queue::{ExternalQueue, ExternalWakeQueue};
use crate::resumable::common::pool::{Block, DescPoolModel, DynamicPoolModel, Node, PoolNode};
use crate::resumable::common::scheduler;
use crate::resumable::common::scheduler::Scheduler;
use crate::resumable::common::stack;
use crate::resumable::common::stack::{StackAlloc, StackMem, UltStackMemory};
use crate::resumable::common::table::MAX_LIVE_TASKS;
use crate::resumable::common::thread as common_thread;
use crate::resumable::common::thread::align_down;
use crate::resumable::common::worker::UltWorker;
use crate::resumable::stackful::desc as stackful_desc;
use crate::resumable::stackful::desc::HasCtx;
use crate::resumable::stackful::suspended;
use crate::resumable::stackful::system;
use crate::resumable::stackful::system::StackfulWorkerSystem;
use crate::resumable::stackful::thread;
use crate::resumable::stackful::thread::STACK_ALIGN;
use crate::resumable::stackful::worker as stackful_worker;
use crate::resumable::stackful::worker::{ContextSwitcher, PendingSwitch, StackfulWorker};

verus! {

/// What is kept from setting a system up until it is torn down.
pub struct StackfulInit {
    caller: usize,
    service: Option<usize>,
    dest_cont: Option<SuspendedTaskToken>,
}

/// A system that is set up: its scheduler, what is kept of it, the stack of
/// worker 0's loop, and where the loop starts on it.
pub struct InitPlan<S: StackfulWorkerSystem> where <S::Desc as TaskDescCore>::Owned: HasCtx {
    pub sched: Scheduler<S>,
    pub guard: StackfulInit,
    pub loop_stack: <S::StackAlloc as StackAlloc>::Mem,
    pub exec_top: usize,
    pub loop_desc: usize,
}

/// The descriptor of the caller's native stack, which owns no stack.
pub open spec fn caller_node<D: TaskDescAlloc>(queue: usize) -> Node<D> where D::Owned: HasCtx {
    thread::committed(
        Node { alloc_wk: 0, oversized: true, payload: D::fresh(StackMem::NoStack, false) },
        queue,
    )
}

/// Whether the parts of a system can be set up.
pub open spec fn valid_system<S: StackfulWorkerSystem>() -> bool where
    <S::Desc as TaskDescCore>::Owned: HasCtx,
 {
    &&& S::Pool::valid_config()
    &&& S::AsyncPool::valid_config()
    &&& scheduler::recursion_threshold::<S>().wf()
    &&& S::RecursionPool::valid_config(scheduler::recursion_threshold::<S>())
}

/// Sets a system of `num_workers` workers up, each with stacks of `stack_size`
/// bytes, on a thread that is not one of its workers: `current`, the worker of
/// the system that is found on the thread, is none. `queue` is where outside
/// threads wake its tasks; `map` makes the mapping for the stack of worker 0's
/// loop. The task that runs on worker 0 is the caller.
pub fn init<S: StackfulWorkerSystem, M: FnOnce(usize, usize) -> usize>(
    num_workers: usize,
    stack_size: usize,
    current: Option<usize>,
    queue: usize,
    page: usize,
    map: M,
) -> (r: InitPlan<S>) where <S::Desc as TaskDescCore>::Owned: HasCtx
    requires
        1 <= num_workers < MAX_LIVE_TASKS,
        current is None,
        valid_system::<S>(),
        stack::is_pow2(page),
        S::StackAlloc::mapping_len(stack_size, page) <= usize::MAX,
        call_requires(map, (S::StackAlloc::mapping_len(stack_size, page) as usize, page)),
        forall|base: usize| #[trigger]
            call_ensures(map, (S::StackAlloc::mapping_len(stack_size, page) as usize, page), base)
                ==> base + S::StackAlloc::mapping_len(stack_size, page) <= usize::MAX,
    ensures
        r.sched.queues_wf(),
        r.sched.pools_wf(),
        r.sched.workers@.len() == num_workers,
        !r.sched.finished,
        r.sched.stack_size == stack_size,
        r.sched.external_queue.items() == Seq::<usize>::empty(),
        !r.sched.external_queue.stopped(),
        r.sched.task_pool.pooled() == Multiset::<Node<S::Desc>>::empty(),
        r.sched.task_pool.contents() == S::Pool::no_nodes(num_workers as nat),
        r.sched.task_pool.slot_size() == stack_size,
        r.sched.async_task_pool.pooled() == Multiset::<Node<S::Desc>>::empty(),
        r.sched.async_task_pool.contents() == S::AsyncPool::no_nodes(num_workers as nat),
        r.sched.async_task_pool.slot_size() == S::spec_async_pool_size(),
        r.sched.recursion_pool.pooled() == Multiset::<Block>::empty(),
        r.sched.recursion_pool.contents() == S::RecursionPool::no_blocks(num_workers as nat),
        r.sched.recursion_pool.threshold() == scheduler::recursion_threshold::<S>(),
        r.sched.tasks@.dom().len() == num_workers + 1,
        r.guard.returning() is None,
        r.guard.service() is None,
        r.sched.workers@[0].running() == Some(r.guard.caller()),
        r.sched.workers@[0].root_desc == r.loop_desc,
        r.loop_desc != r.guard.caller(),
        r.sched.tasks@.dom().contains(r.guard.caller()),
        r.sched.tasks@[r.guard.caller()] == caller_node::<S::Desc>(queue),
        !r.sched.tasks@[r.guard.caller()].payload.root(),
        stackful_desc::is_stackful_at(r.sched.tasks@, r.guard.caller()),
        scheduler::is_idle_worker(
            UltWorker { cur_task: None, ..r.sched.workers@[0] },
            r.sched.tasks@,
        ),
        forall|w: int|
            1 <= w < num_workers ==> scheduler::is_idle_worker(
                #[trigger] r.sched.workers@[w],
                r.sched.tasks@,
            ),
        forall|v: int, w: int|
            0 <= v < w < num_workers ==> (#[trigger] r.sched.workers@[v]).root_desc != (
            #[trigger] r.sched.workers@[w]).root_desc,
        exists|base: usize| #[trigger]
            call_ensures(map, (S::StackAlloc::mapping_len(stack_size, page) as usize, page), base)
                && r.loop_stack == S::StackAlloc::made(stack_size, page, base),
        r.exec_top == common_thread::rounded_down(r.loop_stack.top(), STACK_ALIGN as int),
{
    let mut sched: Scheduler<S> = Scheduler::new(num_workers, stack_size);
    let ghost fresh = sched;
    let mut caller_desc = S::Desc::alloc_with(StackMem::NoStack, false);
    let ghost plain = caller_desc;
    caller_desc.owned_mut().commit_as_ctx();
    proof {
        plain.owned_is_separate(plain.spec_owned().committed_as_ctx());
    }
    caller_desc.owned_mut().set_external_queue(queue);
    let node = Node::wrap_fresh(0, true, caller_desc);
    proof {
        plain.lifecycle(StackMem::NoStack, false);
        thread::lemma_committed(Node { alloc_wk: 0, oversized: true, payload: plain }, queue);
    }
    assert(node == caller_node::<S::Desc>(queue));
    let caller: usize = sched.tasks.insert(node);
    proof {
        assert forall|p: usize| sched.tasks@.dom().contains(p) implies (
        #[trigger] sched.tasks@[p]).home() < sched.workers@.len() by {
            if p != caller {
                assert(fresh.tasks@.dom().contains(p));
                assert(fresh.tasks@[p].home() < fresh.workers@.len());
            }
        }
        assert forall|w: int| 0 <= w < num_workers implies scheduler::is_idle_worker(
            #[trigger] sched.workers@[w],
            sched.tasks@,
        ) by {
            assert(scheduler::is_idle_worker(fresh.workers@[w], fresh.tasks@));
        }
        thread::lemma_stack_align();
    }
    let ghost inserted = sched.workers@;
    sched.workers[0].set_cur_task(RunningTaskToken::from_raw(caller));
    assert(forall|w: int| 1 <= w < num_workers ==> sched.workers@[w] == inserted[w]);
    assert(UltWorker { cur_task: None, ..sched.workers@[0] } == inserted[0]);
    let loop_desc: usize = sched.workers[0].root_desc();
    let loop_stack = S::StackAlloc::alloc_stack(stack_size, page, map);
    let exec_top: usize = align_down(loop_stack.stack_top(), STACK_ALIGN);
    InitPlan {
        sched,
        guard: StackfulInit { caller, service: None, dest_cont: None },
        loop_stack,
        exec_top,
        loop_desc,
    }
}

/// The caller of [`init`] becomes a task like any other: once worker 0's loop
/// was started on its stack, it runs there, and the caller is the next to run.
pub proof fn law_caller_becomes_a_task<S: StackfulWorkerSystem>(
    a: Scheduler<S>,
    b: Scheduler<S>,
    caller: usize,
    loop_desc: usize,
    ctx: usize,
) where <S::Desc as TaskDescCore>::Owned: HasCtx
    requires
        a.workers@.len() > 0,
        a.workers@[0].running() == Some(caller),
        a.workers@[0].deque.order() == Seq::<usize>::empty(),
        stackful_desc::is_stackful_at(a.tasks@, caller),
        suspended::left_and_pushed(a, b, 0, ctx, loop_desc),
    ensures
        b.workers@[0].running() == Some(loop_desc),
        b.workers@[0].deque.order() == seq![caller],
        stackful_desc::ctx_at(b.tasks@, caller) == ctx,
{
    stackful_desc::lemma_ctx_at(a.tasks@, caller, ctx);
    assert(seq![caller] + Seq::<usize>::empty() =~= seq![caller]);
}

/// Whether a service task has to be started for the queue of outside wakes,
/// once the caller runs as a task.
pub fn needs_service<S: StackfulWorkerSystem>() -> (r: bool) where
    <S::Desc as TaskDescCore>::Owned: HasCtx,

    ensures
        r == !S::ExternalQueue::drained_by_workers(),
{
    S::ExternalQueue::needs_service()
}

/// Whether the service of the queue of outside wakes was told to return, if
/// there is one.
pub open spec fn service_told<S: StackfulWorkerSystem>(sched: Scheduler<S>) -> bool where
    <S::Desc as TaskDescCore>::Owned: HasCtx,
 {
    S::ExternalQueue::drained_by_workers() || sched.external_queue.stopped()
}

impl StackfulInit {
    /// The address of the caller's descriptor.
    pub closed spec fn caller(&self) -> usize {
        self.caller
    }

    /// The continuation that the loop of worker 0 leaves in favour of.
    pub closed spec fn returning(&self) -> Option<usize> {
        match self.dest_cont {
            Some(c) => Some(c.ptr()),
            None => None,
        }
    }

    /// The task that serves the queue of outside wakes, until it is waited for.
    pub closed spec fn service(&self) -> Option<usize> {
        self.service
    }

    /// Keeps the task at `desc`, which was started to serve the queue of outside
    /// wakes, to wait for it when the system is torn down.
    pub fn keep_service(&mut self, desc: usize)
        ensures
            final(self).service() == Some(desc),
            final(self).caller() == old(self).caller(),
            final(self).returning() == old(self).returning(),
    {
        self.service = Some(desc);
    }

    /// Second step of tearing down: hands out the task that serves the queue of
    /// outside wakes, if there is one, to be waited for.
    pub fn take_service<S: StackfulWorkerSystem>(&mut self, sched: &Scheduler<S>) -> (r: Option<
        usize,
    >) where <S::Desc as TaskDescCore>::Owned: HasCtx
        requires
            service_told(*sched),
        ensures
            r == old(self).service(),
            final(self).service() is None,
            final(self).caller() == old(self).caller(),
            final(self).returning() == old(self).returning(),
    {
        self.service.take()
    }

    /// First step of tearing down: asks the service of the queue of outside
    /// wakes to return. Its task is waited for next.
    pub fn stop_service<S: StackfulWorkerSystem>(&self, sched: &mut Scheduler<S>) where
        <S::Desc as TaskDescCore>::Owned: HasCtx,

        requires
            old(sched).external_queue.wf(),
        ensures
            final(sched).external_queue.wf(),
            final(sched).external_queue.stopped() == (old(sched).external_queue.stopped()
                || !S::ExternalQueue::drained_by_workers()),
            final(sched).external_queue.items() == old(sched).external_queue.items(),
            service_told(*final(sched)),
            *final(sched) == (Scheduler::<S> {
                external_queue: final(sched).external_queue,
                ..*old(sched)
            }),
    {
        sched.external_queue.stop_service();
    }

    /// Tells all workers to leave, and begins to suspend the caller, wherever
    /// it has got to by now. The service of the queue of outside wakes was told
    /// to return and its task was waited for before.
    pub fn finish<S: StackfulWorkerSystem>(&self, sched: &mut Scheduler<S>, wk: usize) -> (r:
        PendingSwitch) where <S::Desc as TaskDescCore>::Owned: HasCtx
        requires
            stackful_worker::can_suspend(*old(sched), wk as int),
            service_told(*old(sched)),
            self.service() is None,
        ensures
            final(sched).finished,
            r.next.ptr() == stackful_worker::pick_target(
                old(sched).workers@[wk as int],
                old(sched).tasks@,
            ),
            r.to.0 == stackful_desc::ctx_at(old(sched).tasks@, r.next.ptr()),
            system::picked(
                old(sched).workers@[wk as int],
                final(sched).workers@[wk as int],
                old(sched).tasks@,
                r.next.ptr(),
            ),
            final(sched).workers@ == old(sched).workers@.update(
                wk as int,
                final(sched).workers@[wk as int],
            ),
            final(sched).tasks@ == stackful_desc::with_ctx_at(old(sched).tasks@, r.next.ptr(), 0),
            stackful_worker::same_but_workers_and_tasks(
                Scheduler::<S> { finished: true, ..*old(sched) },
                *final(sched),
            ),
    {
        sched.finished = true;
        sched.suspend_to_sched(wk)
    }

    /// Second half: the caller's continuation is kept for the loop of worker
    /// 0.
    pub fn finish_land<S: StackfulWorkerSystem>(
        &mut self,
        sched: &mut Scheduler<S>,
        wk: usize,
        prev: Context,
        next: Transferred<SuspendedTaskToken>,
    ) where <S::Desc as TaskDescCore>::Owned: HasCtx
        requires
            old(self).returning() is None,
            stackful_worker::can_leave(*old(sched), wk as int),
        ensures
            kept_to_return(*final(self), *old(sched), *final(sched), wk as int, prev.0, next.ptr()),
            final(self).caller() == old(self).caller(),
            final(self).service() == old(self).service(),
    {
        let cont = sched.suspend_shim(wk, prev, next);
        self.dest_cont = Some(cont);
    }

    /// What the loop of worker 0 does when it and all other workers have left
    /// their loops: leaves for good in favour of the caller.
    pub fn leave_loop<S: StackfulWorkerSystem>(&mut self, sched: &mut Scheduler<S>) -> (r:
        PendingSwitch) where <S::Desc as TaskDescCore>::Owned: HasCtx
        requires
            old(self).returning() is Some,
            old(sched).tasks.wf(),
            stackful_desc::is_stackful_at(old(sched).tasks@, old(self).returning()->0),
            stackful_desc::ctx_at(old(sched).tasks@, old(self).returning()->0) != 0,
        ensures
            final(self).returning() is None,
            final(self).caller() == old(self).caller(),
            final(self).service() == old(self).service(),
            leaves_to_return(*old(self), *old(sched), *final(sched), r.to.0, r.next.ptr()),
    {
        let dest = self.dest_cont.take().unwrap();
        sched.exit_to_cont(dest)
    }
}

/// Whether the task that ran on worker `wk` has left it with the context
/// `ctx`, `a` being the system before and `b` after, and `g` keeps it for the
/// loop of worker 0.
pub open spec fn kept_to_return<S: StackfulWorkerSystem>(
    g: StackfulInit,
    a: Scheduler<S>,
    b: Scheduler<S>,
    wk: int,
    ctx: usize,
    next: usize,
) -> bool where <S::Desc as TaskDescCore>::Owned: HasCtx {
    &&& g.returning() == a.workers@[wk].running()
    &&& stackful_worker::left_for(a, b, wk, ctx, next)
}

/// Whether the switch `to` and `next` is the one with which the loop of worker
/// 0 leaves for good, `a` being the system before and `b` after.
pub open spec fn leaves_to_return<S: StackfulWorkerSystem>(
    g: StackfulInit,
    a: Scheduler<S>,
    b: Scheduler<S>,
    to: usize,
    next: usize,
) -> bool where <S::Desc as TaskDescCore>::Owned: HasCtx {
    &&& Some(next) == g.returning()
    &&& to == stackful_desc::ctx_at(a.tasks@, next)
    &&& b.workers == a.workers
    &&& b.tasks@ == stackful_desc::with_ctx_at(a.tasks@, next, 0)
    &&& stackful_worker::same_but_workers_and_tasks(a, b)
}

/// Tearing down returns to the caller: whatever the workers do after the caller
/// has left, short of running it, the loop of worker 0 leaves in favour of
/// exactly the task that left, with the context that it left with.
pub proof fn law_teardown_returns_to_the_caller<S: StackfulWorkerSystem>(
    g: StackfulInit,
    a: Scheduler<S>,
    b: Scheduler<S>,
    c: Scheduler<S>,
    d: Scheduler<S>,
    wk: int,
    ctx: usize,
    next: usize,
    to: usize,
    returns_to: usize,
) where <S::Desc as TaskDescCore>::Owned: HasCtx
    requires
        stackful_worker::can_leave(a, wk),
        kept_to_return(g, a, b, wk, ctx, next),
        c.tasks@[a.workers@[wk].running()->0] == b.tasks@[a.workers@[wk].running()->0],
        leaves_to_return(g, c, d, to, returns_to),
    ensures
        Some(returns_to) == a.workers@[wk].running(),
        to == ctx,
        stackful_desc::is_stackful_at(b.tasks@, returns_to),
{
    stackful_desc::lemma_ctx_at(a.tasks@, a.workers@[wk].running()->0, ctx);
}

/// Collects what a system is set up with.
pub struct StackfulBuilderImpl<S> {
    num_workers: Option<usize>,
    stack_size: Option<usize>,
    marker: PhantomData<S>,
}

impl<S: StackfulWorkerSystem> StackfulBuilderImpl<S> where
    <S::Desc as TaskDescCore>::Owned: HasCtx,
 {
    /// The number of workers, where it was chosen.
    pub closed spec fn chosen_workers(&self) -> Option<usize> {
        self.num_workers
    }

    /// The stack size, where it was chosen.
    pub closed spec fn chosen_stack_size(&self) -> Option<usize> {
        self.stack_size
    }

    /// Nothing is chosen.
    pub fn new() -> (r: Self)
        ensures
            r.chosen_workers() is None,
            r.chosen_stack_size() is None,
    {
        StackfulBuilderImpl { num_workers: None, stack_size: None, marker: PhantomData }
    }

    /// Chooses the number of workers.
    pub fn workers(self, n: usize) -> (r: Self)
        ensures
            r.chosen_workers() == Some(n),
            r.chosen_stack_size() == self.chosen_stack_size(),
    {
        StackfulBuilderImpl { num_workers: Some(n), ..self }
    }

    /// Chooses the stack size.
    pub fn stack_size(self, bytes: usize) -> (r: Self)
        ensures
            r.chosen_workers() == self.chosen_workers(),
            r.chosen_stack_size() == Some(bytes),
    {
        StackfulBuilderImpl { stack_size: Some(bytes), ..self }
    }

    /// The number of workers and the stack size that [`init`] is called with:
    /// as many workers as the machine runs threads, and the system's own stack
    /// size, where nothing was chosen.
    pub fn settings(&self, available: usize) -> (r: (usize, usize))
        ensures
            r.0 == (match self.chosen_workers() {
                Some(n) => n,
                None => available,
            }),
            r.1 == (match self.chosen_stack_size() {
                Some(bytes) => bytes,
                None => S::spec_stack_size(),
            }),
    {
        let n: usize = match self.num_workers {
            Some(n) => n,
            None => available,
        };
        let bytes: usize = match self.stack_size {
            Some(bytes) => bytes,
            None => S::stack_size(),
        };
        (n, bytes)
    }
}

/// The caller's descriptor stands for a native stack: it owns no stack, can be
/// switched to, is woken from outside through the system's queue, is not a
/// worker's own loop, and nobody joins it.
pub proof fn law_caller_is_an_ordinary_task<D: TaskDescAlloc>(queue: usize) where D::Owned: HasCtx
    ensures
        caller_node::<D>(queue).payload.stack() is NoStack,
        caller_node::<D>(queue).payload.spec_owned().has_ctx(),
        caller_node::<D>(queue).payload.spec_owned().spec_external_queue() == queue,
        !caller_node::<D>(queue).payload.root(),
        caller_node::<D>(queue).payload.word() == crate::resumable::common::desc::initial_word(
            false,
        ),
        caller_node::<D>(queue).alloc_wk == 0,
        caller_node::<D>(queue).oversized,
{
    let plain = D::fresh(StackMem::NoStack, false);
    plain.lifecycle(StackMem::NoStack, false);
    thread::lemma_committed(Node { alloc_wk: 0, oversized: true, payload: plain }, queue);
}

/// Leaving in favour of the caller takes its context, and leaves every other task,
/// every worker and everything that is queued as it was.
pub proof fn law_return_takes_only_the_callers_context<S: StackfulWorkerSystem>(
    g: StackfulInit,
    a: Scheduler<S>,
    b: Scheduler<S>,
    to: usize,
    next: usize,
    other: usize,
) where <S::Desc as TaskDescCore>::Owned: HasCtx
    requires
        stackful_desc::is_stackful_at(a.tasks@, next),
        leaves_to_return(g, a, b, to, next),
    ensures
        Some(next) == g.returning(),
        to == a.tasks@[next].payload.spec_owned().spec_ctx(),
        b.tasks@[next].payload.spec_owned().spec_ctx() == 0,
        b.tasks@.dom() =~= a.tasks@.dom(),
        other != next && a.tasks@.dom().contains(other) ==> b.tasks@[other] == a.tasks@[other],
        b == (Scheduler::<S> { tasks: b.tasks, ..a }),
{
    stackful_desc::lemma_ctx_at(a.tasks@, next, 0);
}

} // verus!
