//! Descriptors of tasks that are polled instead of switched to: the poll
//! function, the wake state, and [`StacklessOnlyTaskDesc`].
use vstd::prelude::*;

use crate::resumable::common::desc::{
    DescOwned, HasDescOwned, HasExternalQueue, TaskDescAlloc, TaskDescCore, JS_DETACHED, JS_RUNNING,
};
use crate::resumable::common::stack::StackMem;
use crate::resumable::common::waker;
use crate::resumable::common::waker::WakeOutcome;

verus! {

/// Owner fields that can hold a poll function, by its address; zero means
/// that none is set yet.
pub trait HasPollFn: Sized {
    /// Whether the fields are in use for a poll function.
    spec fn has_poll_fn(&self) -> bool;

    /// The poll function.
    spec fn spec_poll_fn(&self) -> usize;

    /// The fields with the poll function replaced.
    spec fn with_poll_fn(self, f: usize) -> Self;

    /// The fields taken into use for a poll function.
    spec fn committed_as_poll_fn(self) -> Self;

    fn poll_fn(&self) -> (r: usize)
        requires
            self.has_poll_fn(),
        ensures
            r == self.spec_poll_fn(),
    ;

    fn set_poll_fn(&mut self, f: usize)
        requires
            old(self).has_poll_fn(),
        ensures
            *final(self) == old(self).with_poll_fn(f),
    ;

    fn commit_as_poll_fn(&mut self)
        ensures
            *final(self) == old(self).committed_as_poll_fn(),
            final(self).has_poll_fn(),
    ;

    /// Whether the task is polled instead of switched to.
    fn is_poll_fn_dispatch(&self) -> (r: bool)
        ensures
            r == self.has_poll_fn(),
    ;
}

/// A descriptor with wake state: the word of the park/wake state machine.
pub trait WakerTaskDesc: TaskDescCore {
    /// The wake word.
    spec fn wake_word(&self) -> u64;

    /// The descriptor with its wake word replaced.
    spec fn with_wake_word(self, w: u64) -> Self;

    /// Replacing the wake word touches nothing else.
    proof fn wake_word_is_separate(self, w: u64)
        ensures
            self.with_wake_word(w).wake_word() == w,
            self.with_wake_word(w).word() == self.word(),
            self.with_wake_word(w).root() == self.root(),
            self.with_wake_word(w).stack() == self.stack(),
            self.with_wake_word(w).spec_owned() == self.spec_owned(),
            forall|o: Self::Owned| (#[trigger] self.with_owned(o)).wake_word() == self.wake_word(),
            forall|v: usize| (#[trigger] self.with_word(v)).wake_word() == self.wake_word(),
    ;

    /// Claiming a task that polls is waking it: it is claimed exactly when it is
    /// parked, and it is being polled again then; a task that is being polled is
    /// told to poll again; otherwise nothing happens.
    proof fn law_claiming_is_waking(self)
        ensures
            self.claims_async_joiner() <==> self.wake_word() % 4 == 2,
            self.wake_word() % 4 == 1 ==> self.after_claim() == self.with_wake_word(
                (self.wake_word() + 2) as u64,
            ),
            self.wake_word() % 4 == 2 ==> self.after_claim() == self.with_wake_word(
                (self.wake_word() - 1) as u64,
            ),
            self.wake_word() % 4 == 0 || self.wake_word() % 4 == 3 ==> self.after_claim() == self,
    ;

    fn waker_refs(&self) -> (r: u64)
        ensures
            r == self.wake_word(),
    ;

    fn set_waker_refs(&mut self, w: u64)
        ensures
            *final(self) == old(self).with_wake_word(w),
    ;

    /// Begins a poll session.
    fn mark_polling(&mut self)
        ensures
            *final(self) == old(self).with_wake_word(waker::POLLING),
    {
        self.set_waker_refs(waker::POLLING);
    }

    /// Ends a poll session.
    fn mark_idle(&mut self)
        ensures
            *final(self) == old(self).with_wake_word(waker::IDLE),
    {
        self.set_waker_refs(waker::IDLE);
    }

    /// Parks, or cancels when a wake raced in.
    fn decide_park(&mut self) -> (parked: bool)
        ensures
            parked == waker::park_commits(old(self).wake_word()),
            *final(self) == old(self).with_wake_word(waker::after_park(old(self).wake_word())),
    {
        let mut w: u64 = self.waker_refs();
        let parked = waker::decide_park(&mut w);
        self.set_waker_refs(w);
        parked
    }

    /// Parks after a pending poll, or claims another poll.
    fn park_after_poll(&mut self) -> (parked: bool)
        ensures
            parked == waker::park_commits(old(self).wake_word()),
            *final(self) == old(self).with_wake_word(waker::after_park(old(self).wake_word())),
    {
        let mut w: u64 = self.waker_refs();
        let parked = waker::park_after_poll(&mut w);
        self.set_waker_refs(w);
        parked
    }

    /// Wakes.
    fn try_wake_state(&mut self) -> (outcome: WakeOutcome)
        ensures
            outcome == waker::wake_outcome(old(self).wake_word()),
            *final(self) == old(self).with_wake_word(waker::after_wake(old(self).wake_word())),
    {
        let mut w: u64 = self.waker_refs();
        let outcome = waker::try_wake_state(&mut w);
        self.set_waker_refs(w);
        outcome
    }

    /// Records that a clone of the waker exists.
    fn transition_to_shared(&mut self)
        ensures
            *final(self) == old(self).with_wake_word(waker::after_share(old(self).wake_word())),
    {
        let mut w: u64 = self.waker_refs();
        waker::transition_to_shared(&mut w);
        self.set_waker_refs(w);
    }

    /// Whether a clone of the waker exists.
    fn is_ever_shared(&self) -> (r: bool)
        ensures
            r == waker::ever_shared(self.wake_word()),
    {
        waker::is_ever_shared(self.waker_refs())
    }
}

/// The owner fields of a [`StacklessOnlyTaskDesc`].
pub struct StacklessOnlyOwned {
    pub desc_owned: DescOwned,
    pub external_queue: usize,
    pub poll_fn: usize,
}

impl HasDescOwned for StacklessOnlyOwned {
    open spec fn spec_desc_owned(&self) -> DescOwned {
        self.desc_owned
    }

    open spec fn with_desc_owned(self, d: DescOwned) -> Self {
        StacklessOnlyOwned { desc_owned: d, ..self }
    }

    fn desc_owned(&self) -> (r: &DescOwned) {
        &self.desc_owned
    }

    fn desc_owned_mut(&mut self) -> (r: &mut DescOwned) {
        &mut self.desc_owned
    }
}

impl HasExternalQueue for StacklessOnlyOwned {
    open spec fn spec_external_queue(&self) -> usize {
        self.external_queue
    }

    open spec fn with_external_queue(self, queue: usize) -> Self {
        StacklessOnlyOwned { external_queue: queue, ..self }
    }

    fn external_queue(&self) -> (r: usize) {
        self.external_queue
    }

    fn set_external_queue(&mut self, queue: usize) {
        self.external_queue = queue;
    }
}

impl HasPollFn for StacklessOnlyOwned {
    open spec fn has_poll_fn(&self) -> bool {
        true
    }

    open spec fn spec_poll_fn(&self) -> usize {
        self.poll_fn
    }

    open spec fn with_poll_fn(self, f: usize) -> Self {
        StacklessOnlyOwned { poll_fn: f, ..self }
    }

    /// There is nothing else that the fields could be in use for.
    open spec fn committed_as_poll_fn(self) -> Self {
        self
    }

    fn poll_fn(&self) -> (r: usize) {
        self.poll_fn
    }

    fn set_poll_fn(&mut self, f: usize) {
        self.poll_fn = f;
    }

    fn commit_as_poll_fn(&mut self) {
    }

    fn is_poll_fn_dispatch(&self) -> (r: bool) {
        true
    }
}

/// The descriptor of a system whose tasks are all polled.
pub struct StacklessOnlyTaskDesc {
    pub owned: StacklessOnlyOwned,
    pub join_state: usize,
    pub is_root: bool,
    pub waker_refs: u64,
    pub stack: StackMem,
}

impl TaskDescCore for StacklessOnlyTaskDesc {
    type Owned = StacklessOnlyOwned;

    open spec fn word(&self) -> usize {
        self.join_state
    }

    open spec fn with_word(self, w: usize) -> Self {
        StacklessOnlyTaskDesc { join_state: w, ..self }
    }

    open spec fn root(&self) -> bool {
        self.is_root
    }

    open spec fn stack(&self) -> StackMem {
        self.stack
    }

    open spec fn spec_owned(&self) -> StacklessOnlyOwned {
        self.owned
    }

    open spec fn with_owned(self, o: StacklessOnlyOwned) -> Self {
        StacklessOnlyTaskDesc { owned: o, ..self }
    }

    proof fn word_is_separate(self, w: usize) {
    }

    proof fn owned_is_separate(self, o: StacklessOnlyOwned) {
    }

    fn join_state(&self) -> (w: usize) {
        self.join_state
    }

    fn set_join_state(&mut self, w: usize) {
        self.join_state = w;
    }

    fn is_root(&self) -> (r: bool) {
        self.is_root
    }

    fn stack_top(&self) -> (r: usize) {
        self.stack.top()
    }

    fn owned(&self) -> (r: &StacklessOnlyOwned) {
        &self.owned
    }

    fn owned_mut(&mut self) -> (r: &mut StacklessOnlyOwned) {
        &mut self.owned
    }

    open spec fn claims_async_joiner(&self) -> bool {
        waker::wake_outcome(self.waker_refs) == WakeOutcome::ClaimedParked
    }

    open spec fn after_claim(self) -> Self {
        StacklessOnlyTaskDesc { waker_refs: waker::after_wake(self.waker_refs), ..self }
    }

    fn try_claim_async_joiner(&mut self) -> (claimed: bool) {
        matches!(waker::try_wake_state(&mut self.waker_refs), WakeOutcome::ClaimedParked)
    }
}

impl WakerTaskDesc for StacklessOnlyTaskDesc {
    open spec fn wake_word(&self) -> u64 {
        self.waker_refs
    }

    open spec fn with_wake_word(self, w: u64) -> Self {
        StacklessOnlyTaskDesc { waker_refs: w, ..self }
    }

    proof fn wake_word_is_separate(self, w: u64) {
    }

    proof fn law_claiming_is_waking(self) {
        waker::law_wakes_by_phase(self.waker_refs);
    }

    fn waker_refs(&self) -> (r: u64) {
        self.waker_refs
    }

    fn set_waker_refs(&mut self, w: u64) {
        self.waker_refs = w;
    }
}

impl TaskDescAlloc for StacklessOnlyTaskDesc {
    open spec fn fresh(stack: StackMem, has_handle: bool) -> Self {
        StacklessOnlyTaskDesc {
            owned: StacklessOnlyOwned {
                desc_owned: DescOwned { tls: None },
                external_queue: 0,
                poll_fn: 0,
            },
            join_state: crate::resumable::common::desc::initial_word(has_handle),
            is_root: false,
            waker_refs: 0,
            stack,
        }
    }

    open spec fn fresh_root() -> Self {
        StacklessOnlyTaskDesc { is_root: true, ..Self::fresh(StackMem::NoStack, false) }
    }

    open spec fn recycled(self, has_handle: bool) -> Self {
        StacklessOnlyTaskDesc {
            owned: StacklessOnlyOwned {
                desc_owned: DescOwned { tls: None },
                poll_fn: 0,
                ..self.owned
            },
            join_state: crate::resumable::common::desc::initial_word(has_handle),
            waker_refs: 0,
            ..self
        }
    }

    proof fn lifecycle(self, stack: StackMem, has_handle: bool) {
    }

    fn alloc_with(stack: StackMem, has_handle: bool) -> (r: Self) {
        StacklessOnlyTaskDesc {
            owned: StacklessOnlyOwned {
                desc_owned: DescOwned::new(),
                external_queue: 0,
                poll_fn: 0,
            },
            join_state: if has_handle {
                JS_RUNNING
            } else {
                JS_DETACHED
            },
            is_root: false,
            waker_refs: 0,
            stack,
        }
    }

    fn new_root() -> (r: Self) {
        StacklessOnlyTaskDesc {
            owned: StacklessOnlyOwned {
                desc_owned: DescOwned::new(),
                external_queue: 0,
                poll_fn: 0,
            },
            join_state: JS_DETACHED,
            is_root: true,
            waker_refs: 0,
            stack: StackMem::NoStack,
        }
    }

    fn reinit(&mut self, has_handle: bool) {
        self.owned.poll_fn = 0;
        self.owned.desc_owned.tls = None;
        self.join_state =
        if has_handle {
            JS_RUNNING
        } else {
            JS_DETACHED
        };
        self.waker_refs = 0;
    }
}

/// The fields of an owner are kept apart: replacing one is seen by the next look
/// at it, and leaves the others. A new or reused descriptor has no poll function
/// and no session.
pub proof fn law_stackless_fields_are_kept_apart(
    o: StacklessOnlyOwned,
    d: StacklessOnlyTaskDesc,
    tls: DescOwned,
    queue: usize,
    f: usize,
    stack: StackMem,
    has_handle: bool,
)
    ensures
        o.with_desc_owned(tls).spec_desc_owned() == tls,
        o.with_desc_owned(tls).spec_external_queue() == o.spec_external_queue(),
        o.with_desc_owned(tls).spec_poll_fn() == o.spec_poll_fn(),
        o.with_external_queue(queue).spec_external_queue() == queue,
        o.with_external_queue(queue).spec_desc_owned() == o.spec_desc_owned(),
        o.with_external_queue(queue).spec_poll_fn() == o.spec_poll_fn(),
        o.with_poll_fn(f).spec_poll_fn() == f,
        o.with_poll_fn(f).spec_desc_owned() == o.spec_desc_owned(),
        o.with_poll_fn(f).spec_external_queue() == o.spec_external_queue(),
        o.committed_as_poll_fn() == o,
        o.has_poll_fn(),
        StacklessOnlyTaskDesc::fresh(stack, has_handle).wake_word() == 0,
        StacklessOnlyTaskDesc::fresh(stack, has_handle).spec_owned().spec_poll_fn() == 0,
        d.recycled(has_handle).wake_word() == 0,
        d.recycled(has_handle).spec_owned().spec_poll_fn() == 0,
{
}

} // verus!
