//! Task descriptors, the join protocol, and the tokens that own a task.
//!
//! A descriptor lives at an address that is a multiple of eight and above
//! seven. Who waits for a task is held in one word, and every transition of
//! that word is one atomic step:
//!
//! * `JS_RUNNING`: the task is alive and nobody waits;
//! * `JS_FINISHED`: the result is written;
//! * `JS_DETACHED`: nobody will ask for the result, the exit path cleans up;
//! * an address: the parked joiner at that address;
//! * an address with bit 0 set: a registered waker, kept at that address;
//! * an address with bit 1 set: a registered task that polls the join handle.
use std::collections::HashMap;

use vstd::prelude::*;

use crate::interchange::PointerInterchangeable;
use crate::resumable::common::stack::StackMem;

verus! {

pub const JS_RUNNING: usize = 0;

pub const JS_FINISHED: usize = 1;

pub const JS_DETACHED: usize = 2;

pub const JS_ASYNC_TAG: usize = 1;

pub const JS_ASYNC_JOINER_TAG: usize = 2;

/// Whether a descriptor, or a boxed waker, can live at this address.
pub open spec fn is_desc_addr(p: usize) -> bool {
    p > 7 && p % 8 == 0
}

/// Who waits for a task, decoded.
#[derive(Clone, Copy, PartialEq, Eq, Structural, Debug)]
pub enum JoinState {
    /// The task is alive and nobody waits.
    Running,
    /// The result is written.
    Finished,
    /// The handle is gone; the exit path cleans up.
    Detached,
    /// A parked joiner.
    SyncJoiner(usize),
    /// A registered waker.
    AsyncWaker(usize),
    /// A registered polling task.
    AsyncJoiner(usize),
}

/// The meaning of a join word.
pub open spec fn join_state_of(v: usize) -> JoinState {
    if v == JS_RUNNING {
        JoinState::Running
    } else if v == JS_FINISHED {
        JoinState::Finished
    } else if v == JS_DETACHED {
        JoinState::Detached
    } else if v % 2 == 1 {
        JoinState::AsyncWaker((v - 1) as usize)
    } else if v % 4 == 2 {
        JoinState::AsyncJoiner((v - 2) as usize)
    } else {
        JoinState::SyncJoiner(v)
    }
}

/// The word that means a given state.
pub open spec fn join_word_of(s: JoinState) -> usize {
    match s {
        JoinState::Running => JS_RUNNING,
        JoinState::Finished => JS_FINISHED,
        JoinState::Detached => JS_DETACHED,
        JoinState::SyncJoiner(p) => p,
        JoinState::AsyncWaker(p) => (p + JS_ASYNC_TAG) as usize,
        JoinState::AsyncJoiner(p) => (p + JS_ASYNC_JOINER_TAG) as usize,
    }
}

/// Whether the waiter of a state lives at a possible address.
pub open spec fn join_state_valid(s: JoinState) -> bool {
    match s {
        JoinState::SyncJoiner(p) => is_desc_addr(p),
        JoinState::AsyncWaker(p) => is_desc_addr(p),
        JoinState::AsyncJoiner(p) => is_desc_addr(p),
        _ => true,
    }
}

/// Every state has a word of its own: the word decodes to the state it was
/// made from.
pub proof fn law_join_word_round_trip(s: JoinState)
    requires
        join_state_valid(s),
    ensures
        join_state_of(join_word_of(s)) == s,
{
}

/// What a join word says, told by the word alone: zero, one and two are the
/// three states without a waiter; any other word is the address of whoever
/// waits, a multiple of eight, plus nothing for a parked joiner, one for a
/// waker, and two for a task that polls. Only a word with bit zero set holds a
/// waker, which is dropped by whoever replaces the word.
pub proof fn law_join_word_names_the_waiter(p: usize)
    ensures
        join_state_of(0) == JoinState::Running,
        join_state_of(1) == JoinState::Finished,
        join_state_of(2) == JoinState::Detached,
        p > 7 && p % 8 == 0 ==> join_state_of(p) == JoinState::SyncJoiner(p),
        p > 7 && p % 8 == 1 ==> join_state_of(p) == JoinState::AsyncWaker((p - 1) as usize),
        p > 7 && p % 8 == 2 ==> join_state_of(p) == JoinState::AsyncJoiner((p - 2) as usize),
        p > 7 && p % 8 == 1 ==> held_waker(p) == Some((p - 1) as usize),
        p <= 2 || p % 2 == 0 ==> held_waker(p) is None,
        is_desc_addr(p) <==> p > 7 && p % 8 == 0,
        initial_word(true) == 0,
        initial_word(false) == 2,
{
}

/// A task that exits settles with exactly the one who waits: a parked joiner is
/// resumed, a waker is woken, a task that polls is claimed, and a task that was
/// given up is reclaimed. Where nobody waits nothing is done.
pub proof fn law_exit_settles_with_the_waiter(a: ExitAction, word: usize)
    requires
        exit_action_is(a, join_state_of(word)),
    ensures
        word == 0 ==> a is Nothing,
        word != 1,
        word == 2 ==> a is Reclaim,
        word > 7 && word % 8 == 0 ==> {
            &&& a matches ExitAction::Resume(t) && t.ptr() == word
        },
        word > 7 && word % 8 == 1 ==> a == ExitAction::Wake((word - 1) as usize),
        word > 7 && word % 8 == 2 ==> a == ExitAction::Claim((word - 2) as usize),
{
}

/// Decodes a join word.
pub fn decode_join_state(v: usize) -> (s: JoinState)
    ensures
        s == join_state_of(v),
{
    assert(v & 1 == v % 2 && v & 2 == (if v % 4 >= 2 {
        2usize
    } else {
        0
    }) && (v % 2 == 1 ==> v & !1 == v - 1) && (v % 4 == 2 ==> v & !2 == v - 2)) by (bit_vector);
    if v == JS_RUNNING {
        JoinState::Running
    } else if v == JS_FINISHED {
        JoinState::Finished
    } else if v == JS_DETACHED {
        JoinState::Detached
    } else if v & JS_ASYNC_TAG != 0 {
        JoinState::AsyncWaker(v & !JS_ASYNC_TAG)
    } else if v & JS_ASYNC_JOINER_TAG != 0 {
        JoinState::AsyncJoiner(v & !JS_ASYNC_JOINER_TAG)
    } else {
        JoinState::SyncJoiner(v)
    }
}

// ---------------------------------------------------------------------------
// Owner-exclusive fields
// ---------------------------------------------------------------------------

/// The fields that every descriptor has for its owner alone.
pub struct DescOwned {
    /// Task-local slots, by key; used by nested schedulers.
    pub tls: Option<HashMap<usize, usize>>,
}

impl DescOwned {
    /// No task-local slots.
    pub fn new() -> (r: Self)
        ensures
            r.tls is None,
    {
        DescOwned { tls: None }
    }
}

/// Access to the fields that every kind of descriptor shares.
pub trait HasDescOwned: Sized {
    spec fn spec_desc_owned(&self) -> DescOwned;

    /// The value with its shared fields replaced.
    spec fn with_desc_owned(self, d: DescOwned) -> Self;

    fn desc_owned(&self) -> (r: &DescOwned)
        ensures
            *r == self.spec_desc_owned(),
    ;

    fn desc_owned_mut(&mut self) -> (r: &mut DescOwned)
        ensures
            *r == old(self).spec_desc_owned(),
            *final(self) == old(self).with_desc_owned(*final(r)),
    ;
}

/// The capability of being woken by a thread that is no worker: the owner
/// fields remember the queue that such a wake goes to. Zero means that there
/// is none.
pub trait HasExternalQueue: Sized {
    spec fn spec_external_queue(&self) -> usize;

    /// The value with its queue replaced.
    spec fn with_external_queue(self, queue: usize) -> Self;

    fn external_queue(&self) -> (r: usize)
        ensures
            r == self.spec_external_queue(),
    ;

    fn set_external_queue(&mut self, queue: usize)
        ensures
            *final(self) == old(self).with_external_queue(queue),
    ;
}

// ---------------------------------------------------------------------------
// Descriptors
// ---------------------------------------------------------------------------

/// The storage of a descriptor: its join word and what its owner keeps.
pub trait TaskDescCore: Sized {
    type Owned: HasDescOwned + HasExternalQueue;

    /// The join word.
    spec fn word(&self) -> usize;

    /// The descriptor with its join word replaced.
    spec fn with_word(self, w: usize) -> Self;

    /// Whether this stands for a worker's own loop.
    spec fn root(&self) -> bool;

    /// The descriptor's stack.
    spec fn stack(&self) -> StackMem;

    /// The owner's fields.
    spec fn spec_owned(&self) -> Self::Owned;

    /// The descriptor with the owner's fields replaced.
    spec fn with_owned(self, o: Self::Owned) -> Self;

    /// Replacing the join word touches nothing else.
    proof fn word_is_separate(self, w: usize)
        ensures
            self.with_word(w).word() == w,
            self.with_word(w).root() == self.root(),
            self.with_word(w).stack() == self.stack(),
            self.with_word(w).spec_owned() == self.spec_owned(),
            self.with_word(self.word()) == self,
    ;

    /// Replacing the owner's fields touches nothing else.
    proof fn owned_is_separate(self, o: Self::Owned)
        ensures
            self.with_owned(o).spec_owned() == o,
            self.with_owned(o).root() == self.root(),
            self.with_owned(o).stack() == self.stack(),
            self.with_owned(o).word() == self.word(),
            self.with_owned(self.spec_owned()) == self,
            forall|other: Self::Owned| #[trigger]
                self.with_owned(o).with_owned(other) == self.with_owned(other),
    ;

    fn join_state(&self) -> (w: usize)
        ensures
            w == self.word(),
    ;

    fn set_join_state(&mut self, w: usize)
        ensures
            *final(self) == old(self).with_word(w),
    ;

    fn is_root(&self) -> (r: bool)
        ensures
            r == self.root(),
    ;

    fn stack_top(&self) -> (r: usize)
        requires
            self.stack().fits(),
        ensures
            r == self.stack().spec_top(),
    ;

    fn owned(&self) -> (r: &Self::Owned)
        ensures
            *r == self.spec_owned(),
    ;

    fn owned_mut(&mut self) -> (r: &mut Self::Owned)
        ensures
            *r == old(self).spec_owned(),
            *final(self) == old(self).with_owned(*final(r)),
    ;

    /// Whether a polling task that is parked was claimed for a hand-off; only
    /// a descriptor with wake state can be.
    spec fn claims_async_joiner(&self) -> bool;

    /// The descriptor after such a claim.
    spec fn after_claim(self) -> Self;

    /// Claims this descriptor's continuation if it is a parked polling task.
    fn try_claim_async_joiner(&mut self) -> (claimed: bool)
        ensures
            claimed == old(self).claims_async_joiner(),
            *final(self) == old(self).after_claim(),
    ;
}

/// What the exit path of a task has to do with whoever waited.
pub enum ExitAction {
    /// Nobody waited.
    Nothing,
    /// Resume the parked joiner.
    Resume(SuspendedTaskToken),
    /// Wake the waker kept at this address.
    Wake(usize),
    /// Resume the polling task at this address, if it is parked.
    Claim(usize),
    /// Nobody will ask for the result: reclaim the descriptor.
    Reclaim,
}

/// The address that an exit action concerns; the action itself is told apart
/// by its variant.
pub open spec fn exit_action_is(a: ExitAction, s: JoinState) -> bool {
    match s {
        JoinState::Running => a is Nothing,
        JoinState::SyncJoiner(j) => a matches ExitAction::Resume(t) && t.ptr() == j,
        JoinState::AsyncWaker(w) => a == ExitAction::Wake(w),
        JoinState::AsyncJoiner(j) => a == ExitAction::Claim(j),
        JoinState::Detached => a is Reclaim,
        JoinState::Finished => false,
    }
}

/// The waker that a join word holds, if it holds one.
pub open spec fn held_waker(word: usize) -> Option<usize> {
    match join_state_of(word) {
        JoinState::AsyncWaker(w) => Some(w),
        _ => None,
    }
}

/// The join protocol, on any descriptor that keeps a join word.
pub trait TaskDesc: TaskDescCore {
    /// Whether the result is written.
    fn is_finished(&self) -> (r: bool)
        ensures
            r == (join_state_of(self.word()) is Finished),
    {
        self.join_state() == JS_FINISHED
    }

    /// Publishes the result without looking at who waits.
    fn commit_finished(&mut self)
        ensures
            *final(self) == old(self).with_word(JS_FINISHED),
    {
        self.set_join_state(JS_FINISHED);
    }

    /// Publishes the result and says what is owed to whoever waited. A task
    /// exits once.
    fn finish_and_settle(&mut self) -> (a: ExitAction)
        requires
            !(join_state_of(old(self).word()) is Finished),
        ensures
            *final(self) == old(self).with_word(JS_FINISHED),
            exit_action_is(a, join_state_of(old(self).word())),
    {
        let word: usize = self.join_state();
        self.set_join_state(JS_FINISHED);
        match decode_join_state(word) {
            JoinState::Running => ExitAction::Nothing,
            JoinState::SyncJoiner(j) => ExitAction::Resume(SuspendedTaskToken::from_raw(j)),
            JoinState::AsyncWaker(w) => ExitAction::Wake(w),
            JoinState::AsyncJoiner(j) => ExitAction::Claim(j),
            JoinState::Detached => ExitAction::Reclaim,
            JoinState::Finished => ExitAction::Nothing,
        }
    }

    /// Gives the result up. True means that the task had finished, so that the
    /// caller reclaims it; otherwise the exit path will. A waker that was
    /// registered is handed out to be dropped.
    fn try_abandon(&mut self) -> (r: (bool, Option<usize>))
        ensures
            r.0 == (join_state_of(old(self).word()) is Finished),
            r.0 ==> *final(self) == *old(self) && r.1 is None,
            !r.0 ==> *final(self) == old(self).with_word(JS_DETACHED) && r.1 == held_waker(
                old(self).word(),
            ),
    {
        let cur: usize = self.join_state();
        if cur == JS_FINISHED {
            return (true, None);
        }
        self.set_join_state(JS_DETACHED);
        match decode_join_state(cur) {
            JoinState::AsyncWaker(w) => (false, Some(w)),
            _ => (false, None),
        }
    }

    /// Whether the result was given up.
    fn is_abandoned(&self) -> (r: bool)
        ensures
            r == (join_state_of(self.word()) is Detached),
    {
        self.join_state() == JS_DETACHED
    }

    /// The parked joiner, for a direct switch to it on exit.
    fn try_take_handoff_target(&self) -> (r: Option<SuspendedTaskToken>)
        ensures
            r matches Some(t) ==> join_state_of(self.word()) == JoinState::SyncJoiner(t.ptr()),
            r is None ==> !(join_state_of(self.word()) is SyncJoiner),
    {
        match decode_join_state(self.join_state()) {
            JoinState::SyncJoiner(j) => Some(SuspendedTaskToken::from_raw(j)),
            _ => None,
        }
    }

    /// Registers a parked joiner, in place of whoever was registered. A
    /// finished task hands the joiner back. A waker that was registered is
    /// handed out to be dropped.
    fn try_register_joiner(&mut self, joiner: SuspendedTaskToken) -> (r: Result<
        Option<usize>,
        SuspendedTaskToken,
    >)
        ensures
            r is Err == (join_state_of(old(self).word()) is Finished),
            r matches Err(t) ==> t == joiner && *final(self) == *old(self),
            r matches Ok(w) ==> *final(self) == old(self).with_word(joiner.ptr()) && w
                == held_waker(old(self).word()),
    {
        let cur: usize = self.join_state();
        if cur == JS_FINISHED {
            return Err(joiner);
        }
        self.set_join_state(joiner.desc());
        match decode_join_state(cur) {
            JoinState::AsyncWaker(w) => Ok(Some(w)),
            _ => Ok(None),
        }
    }
}

impl<D: TaskDescCore> TaskDesc for D {

}

/// The word after a joiner was registered, and whether it was accepted.
pub open spec fn after_register(word: usize, joiner: usize) -> (usize, bool) {
    if join_state_of(word) is Finished {
        (word, false)
    } else {
        (joiner, true)
    }
}

/// The word after the handle gave the result up, and whether the handle has
/// to reclaim the task.
pub open spec fn after_abandon(word: usize) -> (usize, bool) {
    if join_state_of(word) is Finished {
        (word, true)
    } else {
        (JS_DETACHED, false)
    }
}

/// A joiner is never stranded: whichever of registering and finishing comes
/// first, either the joiner is accepted and the exit path resumes exactly it,
/// or it is handed back and finds the result written.
pub proof fn law_joiner_never_stranded(word: usize, joiner: usize)
    requires
        is_desc_addr(joiner),
        !(join_state_of(word) is Finished),
    ensures
        after_register(word, joiner) == (joiner, true),
        join_state_of(after_register(word, joiner).0) == JoinState::SyncJoiner(joiner),
        after_register(JS_FINISHED, joiner) == (JS_FINISHED, false),
{
}

/// Exactly one side reclaims a task whose result is given up: the exit path
/// when the handle went first, the handle when the task finished first.
pub proof fn law_exactly_one_side_reclaims(word: usize)
    requires
        !(join_state_of(word) is Finished),
    ensures
        !after_abandon(word).1,
        join_state_of(after_abandon(word).0) is Detached,
        after_abandon(JS_FINISHED) == (JS_FINISHED, true),
        forall|a: ExitAction|
            exit_action_is(a, join_state_of(word)) && !(join_state_of(word) is Detached) ==> !(
            a is Reclaim),
{
}

/// How descriptors come into being and are used again.
pub trait TaskDescAlloc: TaskDescCore {
    /// A descriptor that has just been made.
    spec fn fresh(stack: StackMem, has_handle: bool) -> Self;

    /// The pseudo-descriptor of a worker's own loop.
    spec fn fresh_root() -> Self;

    /// A pooled descriptor reset for its next task.
    spec fn recycled(self, has_handle: bool) -> Self;

    /// What holds of every new and of every recycled descriptor: nobody has
    /// registered, and the stack is the one it was made with.
    proof fn lifecycle(self, stack: StackMem, has_handle: bool)
        ensures
            Self::fresh(stack, has_handle).stack() == stack,
            Self::fresh(stack, has_handle).word() == initial_word(has_handle),
            !Self::fresh(stack, has_handle).root(),
            Self::fresh_root().root(),
            Self::fresh_root().word() == JS_DETACHED,
            Self::fresh_root().stack() is NoStack,
            self.recycled(has_handle).stack() == self.stack(),
            self.recycled(has_handle).word() == initial_word(has_handle),
            self.recycled(has_handle).root() == self.root(),
            Self::fresh(stack, has_handle).spec_owned().spec_desc_owned().tls is None,
            Self::fresh(stack, has_handle).spec_owned().spec_external_queue() == 0,
            Self::fresh_root().spec_owned().spec_desc_owned().tls is None,
            self.recycled(has_handle).spec_owned().spec_desc_owned().tls is None,
            self.recycled(has_handle).spec_owned().spec_external_queue()
                == self.spec_owned().spec_external_queue(),
    ;

    /// Makes a descriptor on a given stack.
    fn alloc_with(stack: StackMem, has_handle: bool) -> (r: Self)
        ensures
            r == Self::fresh(stack, has_handle),
    ;

    /// Makes a descriptor on a stack of `stack_size` bytes that `make` makes.
    fn alloc_sized<F: FnOnce(usize) -> StackMem>(stack_size: usize, has_handle: bool, make: F) -> (r:
        Self)
        requires
            call_requires(make, (stack_size,)),
        ensures
            exists|stack: StackMem| #[trigger]
                call_ensures(make, (stack_size,), stack) && r == Self::fresh(stack, has_handle),
    {
        Self::alloc_with(make(stack_size), has_handle)
    }

    /// Makes the pseudo-descriptor of a worker's own loop.
    fn new_root() -> (r: Self)
        ensures
            r == Self::fresh_root(),
    ;

    /// Resets a pooled descriptor for its next task. The stack is kept.
    fn reinit(&mut self, has_handle: bool)
        requires
            !old(self).root(),
        ensures
            *final(self) == old(self).recycled(has_handle),
    ;
}

/// The join word that a task starts with.
pub open spec fn initial_word(has_handle: bool) -> usize {
    if has_handle {
        JS_RUNNING
    } else {
        JS_DETACHED
    }
}

// ---------------------------------------------------------------------------
// Tokens
// ---------------------------------------------------------------------------

/// Owns a suspended task. There is one for each suspended task; resuming the
/// task consumes it.
pub struct SuspendedTaskToken {
    desc: usize,
}

impl PointerInterchangeable for SuspendedTaskToken {
    closed spec fn ptr(&self) -> usize {
        self.desc
    }

    fn into_ptr(self) -> (p: usize) {
        self.desc
    }

    fn from_ptr(ptr: usize) -> (r: Self) {
        SuspendedTaskToken { desc: ptr }
    }
}

impl SuspendedTaskToken {
    /// Wraps the address of a descriptor that the caller owns.
    pub fn from_raw(ptr: usize) -> (r: Self)
        ensures
            r.ptr() == ptr,
    {
        SuspendedTaskToken { desc: ptr }
    }

    /// The address of the descriptor.
    pub fn desc(&self) -> (r: usize)
        ensures
            r == self.ptr(),
    {
        self.desc
    }

    /// Gives the token up and keeps the address.
    pub fn into_raw(self) -> (r: usize)
        ensures
            r == self.ptr(),
    {
        self.desc
    }

    /// The task was switched to and runs.
    pub fn into_running(self) -> (r: RunningTaskToken)
        ensures
            r.ptr() == self.ptr(),
    {
        RunningTaskToken::from_raw(self.into_raw())
    }
}

/// Owns the task that runs on a worker.
pub struct RunningTaskToken {
    desc: usize,
}

impl PointerInterchangeable for RunningTaskToken {
    closed spec fn ptr(&self) -> usize {
        self.desc
    }

    fn into_ptr(self) -> (p: usize) {
        self.desc
    }

    fn from_ptr(ptr: usize) -> (r: Self) {
        RunningTaskToken { desc: ptr }
    }
}

impl RunningTaskToken {
    /// Wraps the address of a descriptor that the caller owns.
    pub fn from_raw(ptr: usize) -> (r: Self)
        ensures
            r.ptr() == ptr,
    {
        RunningTaskToken { desc: ptr }
    }

    /// The address of the descriptor.
    pub fn desc(&self) -> (r: usize)
        ensures
            r == self.ptr(),
    {
        self.desc
    }

    /// Gives the token up and keeps the address.
    pub fn into_raw(self) -> (r: usize)
        ensures
            r == self.ptr(),
    {
        self.desc
    }

    /// The task was switched away from.
    pub fn into_suspended(self) -> (r: SuspendedTaskToken)
        ensures
            r.ptr() == self.ptr(),
    {
        SuspendedTaskToken::from_raw(self.into_raw())
    }
}

} // verus!
