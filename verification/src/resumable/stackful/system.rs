//! What a system whose tasks have stacks of their own is made of.
use vstd::prelude::*;

use crate::context::ContextPolicy;
use crate::interchange::PointerInterchangeable;
use crate::resumable::common::deque::{RunQueueStealer, WorkerRunQueue};
use crate::resumable::common::desc::{SuspendedTaskToken, TaskDescCore};
use crate::resumable::common::external_queue::StealPathQueue;
use crate::resumable::common::pool::{BlockPool, Node, ReturnPool, SimplePool, ThresholdPool};
use crate::resumable::common::stack::StackAlloc;
use crate::resumable::common::system::{
    Dispatch, PoolSystem, ReclaimableDesc, RunnableItem, SchedulerSystem, WorkerSystem,
};
use crate::resumable::common::table::TaskTable;
use crate::resumable::common::worker::UltWorker;
use crate::resumable::stackful::desc::{HasCtx, StackfulOnlyTaskDesc};
use crate::resumable::stackful::worker::pop_or_root_stackful;

verus! {

/// The slot size of a pool of polled tasks that nothing uses.
pub const NO_ASYNC_POOL: usize = 0;

/// Whether a suspending worker goes on with the next item of its queue. A task
/// that is polled cannot be switched to, so the worker's own loop takes over
/// and polls it.
pub open spec fn pops_queue<D: RunnableItem>(
    order: Seq<usize>,
    tasks: Map<usize, Node<D>>,
) -> bool {
    order.len() > 0 && tasks[order[0]].payload.dispatch() is Switch
}

/// The contents of a worker's queue once its next item, if there is one, was
/// popped and pushed again.
pub open spec fn after_put_back<S: WorkerSystem>(
    c: <S::RunQueue as WorkerRunQueue<SuspendedTaskToken>>::Contents,
    order: Seq<usize>,
) -> <S::RunQueue as WorkerRunQueue<SuspendedTaskToken>>::Contents {
    if order.len() > 0 {
        S::RunQueue::after_push(S::RunQueue::after_pop(c), order[0])
    } else {
        c
    }
}

/// Whether `b` is worker `a` after it picked `r` to go on with.
pub open spec fn picked<S: WorkerSystem>(
    a: UltWorker<S>,
    b: UltWorker<S>,
    tasks: Map<usize, Node<S::Desc>>,
    r: usize,
) -> bool {
    &&& b.deque.wf()
    &&& if pops_queue(a.deque.order(), tasks) {
        &&& r == a.deque.order()[0]
        &&& b.deque.order() == a.deque.order().drop_first()
        &&& b.deque.contents() == S::RunQueue::after_pop(a.deque.contents())
        &&& b.same_but_queue(a)
    } else {
        &&& Some(r) == a.parked_loop()
        &&& b.deque.order() == a.deque.order()
        &&& b.deque.contents() == after_put_back::<S>(a.deque.contents(), a.deque.order())
        &&& b.same_but_queue(UltWorker { root_cont: None, ..a })
    }
}

/// The parts that switching needs.
pub trait StackfulWorkerSystem: SchedulerSystem where
    <Self::Desc as TaskDescCore>::Owned: HasCtx,
 {
    /// The frame layout.
    type Ctx: ContextPolicy;

    /// How stacks are allocated.
    type StackAlloc: StackAlloc;

    /// The size of a task's stack.
    spec fn spec_stack_size() -> usize;

    /// The size of a task's stack.
    fn stack_size() -> (r: usize)
        ensures
            r == Self::spec_stack_size(),
    ;

    /// Picks what a suspending worker goes on with: the next item of its queue,
    /// or else its own loop.
    fn pop_or_root(wk: &mut UltWorker<Self>, tasks: &TaskTable<Self::Desc>) -> (r:
        SuspendedTaskToken)
        requires
            old(wk).deque.wf(),
            old(wk).deque.order().len() > 0 ==> tasks@.dom().contains(old(wk).deque.order()[0]),
            !pops_queue(old(wk).deque.order(), tasks@) ==> old(wk).root_cont is Some,
        ensures
            picked(*old(wk), *final(wk), tasks@, r.ptr()),
    ;
}

/// A system that can be scheduled and whose tasks can be switched to.
pub trait StackfulSchedulerSystem: StackfulWorkerSystem where
    <Self::Desc as TaskDescCore>::Owned: HasCtx,
 {

}

impl<S: StackfulWorkerSystem> StackfulSchedulerSystem for S where
    <S::Desc as TaskDescCore>::Owned: HasCtx,
 {

}

impl RunnableItem for StackfulOnlyTaskDesc {
    open spec fn dispatch(&self) -> Dispatch {
        Dispatch::Switch
    }

    fn run_on(&self) -> (r: Dispatch) {
        Dispatch::Switch
    }
}

impl ReclaimableDesc for StackfulOnlyTaskDesc {
    open spec fn is_pooled_async(&self) -> bool {
        false
    }

    fn reclaim_to_async(&self) -> (r: bool) {
        false
    }
}

/// Names a system whose tasks all have stacks of their own; everything else
/// follows from the parts it chooses.
pub trait UltIdentity: Sized {
    type Ctx: ContextPolicy;

    type Alloc: StackAlloc;

    type Queue: WorkerRunQueue<SuspendedTaskToken>;

    type QueueStealer: RunQueueStealer<SuspendedTaskToken, Self::Queue>;

    /// The size of a task's stack.
    spec fn identity_stack_size() -> usize;

    /// The size of a task's stack.
    fn ult_stack_size() -> (r: usize)
        ensures
            r == Self::identity_stack_size(),
    ;
}

impl<M: UltIdentity> PoolSystem for M {
    type Desc = StackfulOnlyTaskDesc;

    type Pool = ReturnPool<StackfulOnlyTaskDesc, 16>;

    type AsyncPool = SimplePool<StackfulOnlyTaskDesc, 256>;

    type RecursionPool = ThresholdPool<BlockPool<16>>;

    type ExternalQueue = StealPathQueue;

    open spec fn spec_async_pool_size() -> usize {
        NO_ASYNC_POOL
    }

    fn async_pool_size() -> (r: usize) {
        NO_ASYNC_POOL
    }
}

impl<M: UltIdentity> WorkerSystem for M {
    type RunQueue = M::Queue;

    type Stealer = M::QueueStealer;
}

impl<M: UltIdentity> StackfulWorkerSystem for M {
    type Ctx = <M as UltIdentity>::Ctx;

    type StackAlloc = M::Alloc;

    open spec fn spec_stack_size() -> usize {
        M::identity_stack_size()
    }

    fn stack_size() -> (r: usize) {
        M::ult_stack_size()
    }

    fn pop_or_root(wk: &mut UltWorker<Self>, tasks: &TaskTable<StackfulOnlyTaskDesc>) -> (r:
        SuspendedTaskToken) {
        pop_or_root_stackful(wk)
    }
}

/// A worker that suspends goes on with the first of its queue, if that can be
/// switched to, and then everything behind it is still queued, in order. If the
/// queue is empty, or its first task is one that is polled, the worker goes on
/// with its own loop, and the queue is as it was. It never goes on with anything
/// else, and nothing else of the worker changes.
pub proof fn law_suspending_worker_goes_on_in_order<S: WorkerSystem>(
    a: UltWorker<S>,
    b: UltWorker<S>,
    tasks: Map<usize, Node<S::Desc>>,
    r: usize,
)
    requires
        picked(a, b, tasks, r),
    ensures
        ({
            let order = a.deque.order();
            if order.len() > 0 && tasks[order[0]].payload.dispatch() is Switch {
                &&& order == seq![r] + b.deque.order()
                &&& b == (UltWorker::<S> { deque: b.deque, ..a })
            } else {
                &&& a.root_cont matches Some(t) && t.ptr() == r
                &&& b.deque.order() == order
                &&& b == (UltWorker::<S> { deque: b.deque, root_cont: None, ..a })
            }
        }),
        b.deque.wf(),
{
    let order = a.deque.order();
    if order.len() > 0 && tasks[order[0]].payload.dispatch() is Switch {
        assert(order =~= seq![r] + b.deque.order());
    }
}

/// Where every task has a stack of its own, every task is switched to, and none
/// comes from the pool of polled tasks.
pub proof fn law_stackful_tasks_are_switched_to(d: StackfulOnlyTaskDesc)
    ensures
        d.dispatch() is Switch,
        !d.is_pooled_async(),
{
}

} // verus!
