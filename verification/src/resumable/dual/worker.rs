//! Continuing and reclaiming tasks of systems that have both kinds.
use vstd::prelude::*;

use crate::interchange::PointerInterchangeable;
use crate::resumable::common::deque::WorkerRunQueue;
use crate::resumable::common::desc::{SuspendedTaskToken, TaskDescCore};
use crate::resumable::common::system::{Dispatch, ReclaimableDesc, RunnableItem, WorkerSystem};
use crate::resumable::common::table::TaskTable;
use crate::resumable::common::worker::UltWorker;
use crate::resumable::dual::desc::{DualTaskDesc, TaskDispatch};
use crate::resumable::stackful::desc::HasCtx;
use crate::resumable::stackful::system;
use crate::resumable::stackless::desc::HasPollFn;

verus! {

impl RunnableItem for DualTaskDesc {
    /// A task that is polled is called in place; one with a stack of its own
    /// is switched to.
    open spec fn dispatch(&self) -> Dispatch {
        match self.owned.dispatch {
            TaskDispatch::Ctx(_) => Dispatch::Switch,
            TaskDispatch::PollFn(f) => Dispatch::Poll(f),
        }
    }

    fn run_on(&self) -> (r: Dispatch) {
        match self.owned.dispatch {
            TaskDispatch::Ctx(_) => Dispatch::Switch,
            TaskDispatch::PollFn(f) => Dispatch::Poll(f),
        }
    }
}

impl ReclaimableDesc for DualTaskDesc {
    /// Polled tasks go back to their own pool.
    open spec fn is_pooled_async(&self) -> bool {
        self.owned.dispatch is PollFn
    }

    fn reclaim_to_async(&self) -> (r: bool) {
        matches!(self.owned.dispatch, TaskDispatch::PollFn(_))
    }
}

/// Picks what a suspending worker goes on with where tasks may be polled. A
/// polled task has no saved context to switch to: it goes back to the front of
/// the queue, and the worker's own loop takes over and polls it.
pub fn pop_or_root_dual<S: WorkerSystem>(wk: &mut UltWorker<S>, tasks: &TaskTable<S::Desc>) -> (r:
    SuspendedTaskToken)
    requires
        old(wk).deque.wf(),
        old(wk).deque.order().len() > 0 ==> tasks@.dom().contains(old(wk).deque.order()[0]),
        !system::pops_queue(old(wk).deque.order(), tasks@) ==> old(wk).root_cont is Some,
    ensures
        system::picked(*old(wk), *final(wk), tasks@, r.ptr()),
{
    let ghost before = wk.deque.order();
    if let Some(c) = wk.deque.try_pop() {
        let addr: usize = c.into_ptr();
        let c = SuspendedTaskToken::from_ptr(addr);
        match tasks.get(addr).payload.run_on() {
            Dispatch::Switch => {
                return c;
            },
            Dispatch::Poll(_) => {
                wk.deque.push(c);
                assert(wk.deque.order() =~= before);
            },
        }
    }
    wk.take_root_cont()
}

/// A task is continued in the role that it was taken into use for: one that holds
/// a saved context is switched to, and one that holds a poll function is polled
/// by calling that function. Polled tasks, and only they, go back to their own
/// pool.
pub proof fn law_dual_task_is_continued_in_its_role(d: DualTaskDesc)
    ensures
        d.dispatch() is Switch <==> d.spec_owned().has_ctx(),
        d.spec_owned().has_poll_fn() ==> d.dispatch() == Dispatch::Poll(
            d.spec_owned().spec_poll_fn(),
        ),
        d.is_pooled_async() <==> d.spec_owned().has_poll_fn(),
{
}

} // verus!
