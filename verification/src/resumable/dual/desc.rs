//! The descriptor of systems that have both kinds of tasks: a saved context
//! and a poll function share one place, since a task is never both.
use vstd::prelude::*;

use crate::resumable::common::desc::{
    DescOwned, HasDescOwned, HasExternalQueue, TaskDescAlloc, TaskDescCore, JS_DETACHED, JS_RUNNING,
};
use crate::resumable::common::stack::StackMem;
use crate::resumable::common::waker;
use crate::resumable::common::waker::WakeOutcome;
use crate::resumable::stackful::desc::HasCtx;
use crate::resumable::stackless::desc::{HasPollFn, WakerTaskDesc};

verus! {

/// How a task is continued.
#[derive(Clone, Copy, PartialEq, Eq, Structural, Debug)]
pub enum TaskDispatch {
    /// By switching to this saved context.
    Ctx(usize),
    /// By calling this poll function.
    PollFn(usize),
}

/// The owner fields of a [`DualTaskDesc`].
pub struct DualOwned {
    pub base: DescOwned,
    pub external_queue: usize,
    pub dispatch: TaskDispatch,
}

impl HasDescOwned for DualOwned {
    open spec fn spec_desc_owned(&self) -> DescOwned {
        self.base
    }

    open spec fn with_desc_owned(self, d: DescOwned) -> Self {
        DualOwned { base: d, ..self }
    }

    fn desc_owned(&self) -> (r: &DescOwned) {
        &self.base
    }

    fn desc_owned_mut(&mut self) -> (r: &mut DescOwned) {
        &mut self.base
    }
}

impl HasExternalQueue for DualOwned {
    open spec fn spec_external_queue(&self) -> usize {
        self.external_queue
    }

    open spec fn with_external_queue(self, queue: usize) -> Self {
        DualOwned { external_queue: queue, ..self }
    }

    fn external_queue(&self) -> (r: usize) {
        self.external_queue
    }

    fn set_external_queue(&mut self, queue: usize) {
        self.external_queue = queue;
    }
}

impl HasCtx for DualOwned {
    open spec fn has_ctx(&self) -> bool {
        self.dispatch is Ctx
    }

    open spec fn spec_ctx(&self) -> usize {
        self.dispatch->Ctx_0
    }

    open spec fn with_ctx(self, ptr: usize) -> Self {
        DualOwned { dispatch: TaskDispatch::Ctx(ptr), ..self }
    }

    open spec fn committed_as_ctx(self) -> Self {
        DualOwned { dispatch: TaskDispatch::Ctx(0), ..self }
    }

    proof fn ctx_is_kept(self, ptr: usize) {
    }

    proof fn commit_gives_ctx(self) {
    }

    proof fn queue_is_separate(self, queue: usize) {
    }

    fn ctx(&self) -> (r: usize) {
        match self.dispatch {
            TaskDispatch::Ctx(ctx) => ctx,
            TaskDispatch::PollFn(_) => 0,
        }
    }

    fn set_ctx(&mut self, ptr: usize) {
        self.dispatch = TaskDispatch::Ctx(ptr);
    }

    fn commit_as_ctx(&mut self) {
        self.dispatch = TaskDispatch::Ctx(0);
    }
}

impl HasPollFn for DualOwned {
    open spec fn has_poll_fn(&self) -> bool {
        self.dispatch is PollFn
    }

    open spec fn spec_poll_fn(&self) -> usize {
        self.dispatch->PollFn_0
    }

    open spec fn with_poll_fn(self, f: usize) -> Self {
        DualOwned { dispatch: TaskDispatch::PollFn(f), ..self }
    }

    open spec fn committed_as_poll_fn(self) -> Self {
        DualOwned { dispatch: TaskDispatch::PollFn(0), ..self }
    }

    fn poll_fn(&self) -> (r: usize) {
        match self.dispatch {
            TaskDispatch::PollFn(f) => f,
            TaskDispatch::Ctx(_) => 0,
        }
    }

    fn set_poll_fn(&mut self, f: usize) {
        self.dispatch = TaskDispatch::PollFn(f);
    }

    fn commit_as_poll_fn(&mut self) {
        self.dispatch = TaskDispatch::PollFn(0);
    }

    fn is_poll_fn_dispatch(&self) -> (r: bool) {
        matches!(self.dispatch, TaskDispatch::PollFn(_))
    }
}

/// The descriptor of a system with both kinds of tasks.
pub struct DualTaskDesc {
    pub owned: DualOwned,
    pub join_state: usize,
    pub is_root: bool,
    pub waker_refs: u64,
    pub stack: StackMem,
}

impl TaskDescCore for DualTaskDesc {
    type Owned = DualOwned;

    open spec fn word(&self) -> usize {
        self.join_state
    }

    open spec fn with_word(self, w: usize) -> Self {
        DualTaskDesc { join_state: w, ..self }
    }

    open spec fn root(&self) -> bool {
        self.is_root
    }

    open spec fn stack(&self) -> StackMem {
        self.stack
    }

    open spec fn spec_owned(&self) -> DualOwned {
        self.owned
    }

    open spec fn with_owned(self, o: DualOwned) -> Self {
        DualTaskDesc { owned: o, ..self }
    }

    proof fn word_is_separate(self, w: usize) {
    }

    proof fn owned_is_separate(self, o: DualOwned) {
    }

    fn join_state(&self) -> (w: usize) {
        self.join_state
    }

    fn set_join_state(&mut self, w: usize) {
        self.join_state = w;
    }

    fn is_root(&self) -> (r: bool) {
        self.is_root
    }

    fn stack_top(&self) -> (r: usize) {
        self.stack.top()
    }

    fn owned(&self) -> (r: &DualOwned) {
        &self.owned
    }

    fn owned_mut(&mut self) -> (r: &mut DualOwned) {
        &mut self.owned
    }

    open spec fn claims_async_joiner(&self) -> bool {
        waker::wake_outcome(self.waker_refs) == WakeOutcome::ClaimedParked
    }

    open spec fn after_claim(self) -> Self {
        DualTaskDesc { waker_refs: waker::after_wake(self.waker_refs), ..self }
    }

    fn try_claim_async_joiner(&mut self) -> (claimed: bool) {
        matches!(waker::try_wake_state(&mut self.waker_refs), WakeOutcome::ClaimedParked)
    }
}

impl WakerTaskDesc for DualTaskDesc {
    open spec fn wake_word(&self) -> u64 {
        self.waker_refs
    }

    open spec fn with_wake_word(self, w: u64) -> Self {
        DualTaskDesc { waker_refs: w, ..self }
    }

    proof fn wake_word_is_separate(self, w: u64) {
    }

    proof fn law_claiming_is_waking(self) {
        waker::law_wakes_by_phase(self.waker_refs);
    }

    fn waker_refs(&self) -> (r: u64) {
        self.waker_refs
    }

    fn set_waker_refs(&mut self, w: u64) {
        self.waker_refs = w;
    }
}

impl TaskDescAlloc for DualTaskDesc {
    /// A new descriptor is set up for a saved context; whoever allocated it
    /// commits it to its role.
    open spec fn fresh(stack: StackMem, has_handle: bool) -> Self {
        DualTaskDesc {
            owned: DualOwned {
                base: DescOwned { tls: None },
                external_queue: 0,
                dispatch: TaskDispatch::Ctx(0),
            },
            join_state: crate::resumable::common::desc::initial_word(has_handle),
            is_root: false,
            waker_refs: 0,
            stack,
        }
    }

    open spec fn fresh_root() -> Self {
        DualTaskDesc { is_root: true, ..Self::fresh(StackMem::NoStack, false) }
    }

    /// A recycled descriptor keeps its role.
    open spec fn recycled(self, has_handle: bool) -> Self {
        DualTaskDesc {
            owned: DualOwned {
                base: DescOwned { tls: None },
                dispatch: match self.owned.dispatch {
                    TaskDispatch::Ctx(_) => TaskDispatch::Ctx(0),
                    TaskDispatch::PollFn(_) => TaskDispatch::PollFn(0),
                },
                ..self.owned
            },
            join_state: crate::resumable::common::desc::initial_word(has_handle),
            waker_refs: 0,
            ..self
        }
    }

    proof fn lifecycle(self, stack: StackMem, has_handle: bool) {
    }

    fn alloc_with(stack: StackMem, has_handle: bool) -> (r: Self) {
        DualTaskDesc {
            owned: DualOwned {
                base: DescOwned::new(),
                external_queue: 0,
                dispatch: TaskDispatch::Ctx(0),
            },
            join_state: if has_handle {
                JS_RUNNING
            } else {
                JS_DETACHED
            },
            is_root: false,
            waker_refs: 0,
            stack,
        }
    }

    fn new_root() -> (r: Self) {
        DualTaskDesc {
            owned: DualOwned {
                base: DescOwned::new(),
                external_queue: 0,
                dispatch: TaskDispatch::Ctx(0),
            },
            join_state: JS_DETACHED,
            is_root: true,
            waker_refs: 0,
            stack: StackMem::NoStack,
        }
    }

    fn reinit(&mut self, has_handle: bool) {
        self.owned.dispatch =
        match self.owned.dispatch {
            TaskDispatch::Ctx(_) => TaskDispatch::Ctx(0),
            TaskDispatch::PollFn(_) => TaskDispatch::PollFn(0),
        };
        self.owned.base.tls = None;
        self.join_state =
        if has_handle {
            JS_RUNNING
        } else {
            JS_DETACHED
        };
        self.waker_refs = 0;
    }
}

/// A task is either switched to or polled: its one place holds a saved context or
/// a poll function, whichever it was last taken into use for, and reads back what
/// was put there. The other fields are kept apart from it. A new descriptor is
/// set up for a context, a reused one keeps its role, and neither has a session.
pub proof fn law_dual_task_has_one_role(
    o: DualOwned,
    d: DualTaskDesc,
    tls: DescOwned,
    queue: usize,
    v: usize,
    stack: StackMem,
    has_handle: bool,
)
    ensures
        o.has_ctx() != o.has_poll_fn(),
        o.with_ctx(v).has_ctx() && o.with_ctx(v).spec_ctx() == v,
        o.with_poll_fn(v).has_poll_fn() && o.with_poll_fn(v).spec_poll_fn() == v,
        o.committed_as_ctx().has_ctx() && o.committed_as_ctx().spec_ctx() == 0,
        o.committed_as_poll_fn().has_poll_fn() && o.committed_as_poll_fn().spec_poll_fn() == 0,
        o.with_ctx(v).spec_desc_owned() == o.spec_desc_owned(),
        o.with_ctx(v).spec_external_queue() == o.spec_external_queue(),
        o.with_poll_fn(v).spec_desc_owned() == o.spec_desc_owned(),
        o.with_poll_fn(v).spec_external_queue() == o.spec_external_queue(),
        o.committed_as_poll_fn().spec_desc_owned() == o.spec_desc_owned(),
        o.committed_as_poll_fn().spec_external_queue() == o.spec_external_queue(),
        o.with_external_queue(queue).spec_external_queue() == queue,
        o.with_external_queue(queue).has_ctx() == o.has_ctx(),
        o.with_external_queue(queue).spec_desc_owned() == o.spec_desc_owned(),
        o.with_desc_owned(tls).spec_desc_owned() == tls,
        o.with_desc_owned(tls).has_ctx() == o.has_ctx(),
        o.with_desc_owned(tls).spec_external_queue() == o.spec_external_queue(),
        DualTaskDesc::fresh(stack, has_handle).spec_owned().has_ctx(),
        DualTaskDesc::fresh(stack, has_handle).spec_owned().spec_ctx() == 0,
        DualTaskDesc::fresh(stack, has_handle).wake_word() == 0,
        d.recycled(has_handle).spec_owned().has_ctx() == d.spec_owned().has_ctx(),
        d.recycled(has_handle).wake_word() == 0,
{
}

} // verus!
