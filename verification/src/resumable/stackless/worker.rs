//! Continuing tasks that are polled.
use vstd::prelude::*;

use crate::resumable::common::desc::TaskDescCore;
use crate::resumable::common::system::{Dispatch, ReclaimableDesc, RunnableItem};
use crate::resumable::stackless::desc::{HasPollFn, StacklessOnlyTaskDesc};

verus! {

impl RunnableItem for StacklessOnlyTaskDesc {
    open spec fn dispatch(&self) -> Dispatch {
        Dispatch::Poll(self.owned.poll_fn)
    }

    fn run_on(&self) -> (r: Dispatch) {
        Dispatch::Poll(self.owned.poll_fn)
    }
}

impl ReclaimableDesc for StacklessOnlyTaskDesc {
    open spec fn is_pooled_async(&self) -> bool {
        true
    }

    fn reclaim_to_async(&self) -> (r: bool) {
        true
    }
}

/// Every task is continued by calling its poll function, and goes back to the
/// pool of polled tasks.
pub proof fn law_stackless_tasks_are_polled(d: StacklessOnlyTaskDesc)
    ensures
        d.dispatch() == Dispatch::Poll(d.spec_owned().spec_poll_fn()),
        d.is_pooled_async(),
{
}

} // verus!
