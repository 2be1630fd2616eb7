//! What a threading system is made of: the parts that the scheduler is
//! generic over.
use vstd::prelude::*;

use crate::resumable::common::deque::{RunQueueStealer, WorkerRunQueue};
use crate::resumable::common::desc::{SuspendedTaskToken, TaskDescAlloc, TaskDescCore};
use crate::resumable::common::external_queue::ExternalQueue;
use crate::resumable::common::pool::{DescPool, DynamicPool};

verus! {

/// How a worker continues a task.
#[derive(Clone, Copy, PartialEq, Eq, Structural, Debug)]
pub enum Dispatch {
    /// By switching to its saved context.
    Switch,
    /// By calling the poll function at this address.
    Poll(usize),
}

/// A descriptor that says how its task is continued.
pub trait RunnableItem: TaskDescCore {
    /// How the task is continued.
    spec fn dispatch(&self) -> Dispatch;

    /// How the task is continued.
    fn run_on(&self) -> (r: Dispatch)
        ensures
            r == self.dispatch(),
    ;
}

/// A descriptor that says which pool it goes back to.
pub trait ReclaimableDesc: TaskDescCore {
    /// Whether it goes back to the pool of polled tasks.
    spec fn is_pooled_async(&self) -> bool;

    /// Whether it goes back to the pool of polled tasks.
    fn reclaim_to_async(&self) -> (r: bool)
        ensures
            r == self.is_pooled_async(),
    ;
}

/// The memory of a system: descriptors, their pools, and the queue that
/// outside threads wake through.
pub trait PoolSystem: Sized {
    type Desc: TaskDescAlloc + RunnableItem + ReclaimableDesc;

    type Pool: DescPool<Self::Desc>;

    type AsyncPool: DescPool<Self::Desc>;

    type RecursionPool: DynamicPool;

    type ExternalQueue: ExternalQueue;

    /// The slot size of the pool of polled tasks.
    spec fn spec_async_pool_size() -> usize;

    /// The slot size of the pool of polled tasks.
    fn async_pool_size() -> (r: usize)
        ensures
            r == Self::spec_async_pool_size(),
    ;
}

/// The run queues of a system.
pub trait WorkerSystem: PoolSystem {
    type RunQueue: WorkerRunQueue<SuspendedTaskToken>;

    type Stealer: RunQueueStealer<SuspendedTaskToken, Self::RunQueue>;
}

/// A system that can be scheduled.
pub trait SchedulerSystem: WorkerSystem {

}

impl<S: WorkerSystem> SchedulerSystem for S {

}

/// The number of the worker that the caller runs on; outside of all workers it
/// is zero.
pub fn worker_num(current: Option<usize>) -> (r: usize)
    ensures
        r == (match current {
            Some(num) => num,
            None => 0,
        }),
{
    match current {
        Some(num) => num,
        None => 0,
    }
}

/// How many workers serve the caller; outside of all workers there is one, the
/// caller.
pub fn num_workers(serving: Option<usize>) -> (r: usize)
    ensures
        r == (match serving {
            Some(n) => n,
            None => 1,
        }),
{
    match serving {
        Some(n) => n,
        None => 1,
    }
}

} // verus!
