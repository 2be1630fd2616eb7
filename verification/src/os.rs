//! The system at the bottom: threads of the operating system.
//!
//! Its threads, locks and condition variables are those of the standard
//! library; here is what its slots and its delegator decide.
use core::marker::PhantomData;
use std::collections::VecDeque;
use vstd::prelude::*;

use crate::resumable::stackful::tls::TLS_ANCHOR_UNASSIGNED;

verus! {

/// The system of operating system threads.
pub struct OsSystem;

impl OsSystem {
    /// There are no numbered workers: any thread may start others.
    pub fn worker_num() -> (r: usize)
        ensures
            r == 0,
    {
        0
    }

    /// How many threads run at a time, as far as the machine says.
    pub fn num_workers(available: Option<usize>) -> (r: usize)
        ensures
            r == (match available {
                Some(n) => n,
                None => 1,
            }),
    {
        match available {
            Some(n) => n,
            None => 1,
        }
    }
}

// ---------------------------------------------------------------------------
// Slots
// ---------------------------------------------------------------------------

/// How many slots a thread has.
pub const OS_TLS_MAX_SLOTS: usize = 16;

/// The slots of one thread.
pub struct OsTlsSlots {
    slots: [usize; 16],
}

impl View for OsTlsSlots {
    type V = Seq<usize>;

    closed spec fn view(&self) -> Seq<usize> {
        self.slots@
    }
}

impl OsTlsSlots {
    /// The slots of a new thread, all null.
    pub fn new() -> (r: Self)
        ensures
            r@ == Seq::new(OS_TLS_MAX_SLOTS as nat, |i: int| 0usize),
            r@.len() == 16,
    {
        let r = OsTlsSlots { slots: [0, 0, 0, 0, 0, 0, 0, 0, 0, 0, 0, 0, 0, 0, 0, 0] };
        assert(r@ =~= Seq::new(OS_TLS_MAX_SLOTS as nat, |i: int| 0usize));
        r
    }
}

/// What asking for a slot comes to.
#[derive(Clone, Copy, PartialEq, Eq, Structural, Debug)]
pub enum SlotAssignment {
    /// This one.
    Slot(usize),
    /// All are in use.
    TooManySlots,
}

/// One of the slots that every thread has, where systems keep an address.
pub struct OsTls<T> {
    index: usize,
    marker: PhantomData<T>,
}

impl<T> OsTls<T> {
    /// The slot's index, once it has one.
    pub closed spec fn assigned(&self) -> Option<usize> {
        if self.index == TLS_ANCHOR_UNASSIGNED {
            None
        } else {
            Some(self.index)
        }
    }

    /// The index is one of those that a thread has.
    pub open spec fn wf(&self) -> bool {
        self.assigned() matches Some(i) ==> i < OS_TLS_MAX_SLOTS
    }

    /// The index, if there is one, was drawn before the counter came to
    /// `next_slot`.
    pub open spec fn counted(&self, next_slot: int) -> bool {
        self.assigned() matches Some(i) ==> i < next_slot
    }

    /// A slot without an index.
    pub fn new() -> (r: Self)
        ensures
            r.assigned() is None,
            r.wf(),
    {
        OsTls { index: TLS_ANCHOR_UNASSIGNED, marker: PhantomData }
    }

    /// The slot's index. The first one to ask draws it from the counter that
    /// all slots share, as long as a thread has that many; an index that was
    /// drawn is never given back.
    pub fn assign_slot(&mut self, next_slot: &mut usize) -> (r: SlotAssignment)
        requires
            old(self).wf(),
            old(self).assigned() is None ==> *old(next_slot) < usize::MAX,
        ensures
            final(self).wf(),
            match old(self).assigned() {
                Some(i) => {
                    &&& r == SlotAssignment::Slot(i)
                    &&& *final(self) == *old(self)
                    &&& *final(next_slot) == *old(next_slot)
                },
                None => {
                    &&& *final(next_slot) == *old(next_slot) + 1
                    &&& if *old(next_slot) < OS_TLS_MAX_SLOTS {
                        &&& r == SlotAssignment::Slot(*old(next_slot))
                        &&& final(self).assigned() == Some(*old(next_slot))
                    } else {
                        &&& r == SlotAssignment::TooManySlots
                        &&& final(self).assigned() is None
                    }
                },
            },
            r is TooManySlots <==> old(self).assigned() is None && *old(next_slot) >= 16,
    {
        if self.index != TLS_ANCHOR_UNASSIGNED {
            return SlotAssignment::Slot(self.index);
        }
        let candidate: usize = *next_slot;
        *next_slot = candidate + 1;
        if candidate >= OS_TLS_MAX_SLOTS {
            return SlotAssignment::TooManySlots;
        }
        self.index = candidate;
        SlotAssignment::Slot(candidate)
    }

    /// What the thread with these slots keeps here.
    pub fn get(&self, thread: &OsTlsSlots) -> (r: usize)
        requires
            self.wf(),
            self.assigned() is Some,
        ensures
            r == thread@[self.assigned()->0 as int],
    {
        thread.slots[self.index]
    }

    /// Keeps an address here, for the thread with these slots.
    pub fn set(&self, thread: &mut OsTlsSlots, p: usize)
        requires
            self.wf(),
            self.assigned() is Some,
        ensures
            final(thread)@ == old(thread)@.update(self.assigned()->0 as int, p),
    {
        thread.slots[self.index] = p;
    }
}

/// Slots do not collide: one that draws its index gets another one than every
/// slot that drew before it.
pub proof fn law_slots_are_distinct<T, U>(earlier: OsTls<T>, drawn: OsTls<U>, next_slot: usize)
    requires
        earlier.counted(next_slot as int),
        drawn.assigned() == Some(next_slot),
    ensures
        earlier.assigned() != drawn.assigned(),
        earlier.counted(next_slot + 1),
        drawn.counted(next_slot + 1),
{
}

// ---------------------------------------------------------------------------
// Parking
// ---------------------------------------------------------------------------

/// A thread that waits to be told to go on.
pub struct OsSuspendedThread {
    /// Whether a thread waits.
    waiting: bool,
    /// Whether it was told to go on.
    ready: bool,
}

impl OsSuspendedThread {
    /// Whether a thread waits here.
    pub closed spec fn is_waiting(&self) -> bool {
        self.waiting
    }

    /// Whether it was told to go on.
    pub closed spec fn is_ready(&self) -> bool {
        self.ready
    }

    /// Nobody waits.
    pub fn new() -> (r: Self)
        ensures
            !r.is_waiting(),
            !r.is_ready(),
    {
        OsSuspendedThread { waiting: false, ready: false }
    }

    /// Begins to wait.
    pub fn wait_with(&mut self)
        ensures
            final(self).is_waiting(),
            !final(self).is_ready(),
            os_thread_stepped(*old(self), *final(self), OsThreadStep::Wait),
    {
        self.waiting = true;
        self.ready = false;
    }

    /// Whether the thread that waits goes on; a wake without reason does not
    /// let it.
    pub fn try_leave(&mut self) -> (r: bool)
        ensures
            r == old(self).is_ready(),
            r ==> !final(self).is_waiting() && !final(self).is_ready(),
            !r ==> *final(self) == *old(self),
            os_thread_stepped(
                *old(self),
                *final(self),
                if r {
                    OsThreadStep::Leave
                } else {
                    OsThreadStep::Stay
                },
            ),
    {
        if self.ready {
            self.waiting = false;
            self.ready = false;
            true
        } else {
            false
        }
    }

    /// Tells the thread that waits here, if one does, to go on. True means that
    /// it is to be woken.
    pub fn notify(&mut self) -> (r: bool)
        ensures
            r == old(self).is_waiting(),
            final(self).is_waiting() == old(self).is_waiting(),
            final(self).is_ready() == (old(self).is_ready() || old(self).is_waiting()),
            os_thread_stepped(*old(self), *final(self), OsThreadStep::Notify),
    {
        if self.waiting {
            self.ready = true;
            true
        } else {
            false
        }
    }
}

// ---------------------------------------------------------------------------
// Delegator
// ---------------------------------------------------------------------------

/// What the consumer's thread does next.
pub enum OsConsumerStep<K> {
    /// Wait until somebody signals.
    Wait,
    /// Leave.
    Exit,
    /// Execute this work.
    Execute(K, OsSuspendedThread),
    /// Make a step of its own.
    Progress,
    /// The lock was released: signal to everybody.
    Released,
}

/// How a caller goes on.
#[derive(Clone, Copy, PartialEq, Eq, Structural, Debug)]
pub enum OsDelegation {
    /// The caller has the lock: execute in place.
    Immediate,
    /// Somebody has it: leave the work.
    Delegate,
}

/// A lock whose holder works off what others leave.
pub struct OsDelegator<K> {
    locked: bool,
    finished: bool,
    queue: VecDeque<(K, OsSuspendedThread)>,
}

impl<K> OsDelegator<K> {
    /// Whether somebody has the lock.
    pub closed spec fn is_locked(&self) -> bool {
        self.locked
    }

    /// Whether the consumer was told to leave.
    pub closed spec fn is_finished(&self) -> bool {
        self.finished
    }

    /// The work that was left, oldest first, each with who waits for it.
    pub closed spec fn left(&self) -> Seq<(K, OsSuspendedThread)> {
        self.queue@
    }

    /// The consumer's thread has the lock, and no work was left.
    pub fn start() -> (r: Self)
        ensures
            r.is_locked(),
            !r.is_finished(),
            r.left() == Seq::<(K, OsSuspendedThread)>::empty(),
    {
        OsDelegator { locked: true, finished: false, queue: VecDeque::new() }
    }

    /// Tells the consumer's thread to leave once all work is done.
    pub fn stop(&mut self)
        ensures
            final(self).is_finished(),
            final(self).is_locked() == old(self).is_locked(),
            final(self).left() == old(self).left(),
    {
        self.finished = true;
    }

    /// What the consumer's thread does next; `active` says whether the
    /// consumer has something of its own going on.
    pub fn consumer_loop(&mut self, active: bool) -> (r: OsConsumerStep<K>)
        ensures
            final(self).is_finished() == old(self).is_finished(),
            final(self).is_locked() == (old(self).is_locked() && !(r is Released)),
            final(self).left() == (if r is Execute {
                old(self).left().drop_first()
            } else {
                old(self).left()
            }),
            if old(self).left().len() > 0 {
                r == OsConsumerStep::Execute(old(self).left()[0].0, old(self).left()[0].1)
            } else if old(self).is_finished() {
                r is Exit
            } else if old(self).is_locked() {
                r is Wait
            } else if active {
                r is Progress
            } else {
                r is Released
            },
            os_delegator_stepped(
                *old(self),
                *final(self),
                if r is Execute {
                    OsDelegatorStep::Execute
                } else {
                    OsDelegatorStep::Other
                },
            ),
    {
        if self.locked && self.queue.len() == 0 && !self.finished {
            return OsConsumerStep::Wait;
        }
        if self.finished && self.queue.len() == 0 {
            return OsConsumerStep::Exit;
        }
        match self.queue.pop_front() {
            Some((work, sth)) => {
                assert(self.queue@ =~= old(self).queue@.drop_first());
                OsConsumerStep::Execute(work, sth)
            },
            None => if active {
                OsConsumerStep::Progress
            } else {
                self.locked = false;
                OsConsumerStep::Released
            },
        }
    }

    /// Takes the lock, if nobody has it.
    pub fn execute_or_delegate(&mut self) -> (r: OsDelegation)
        ensures
            r == (if old(self).is_locked() {
                OsDelegation::Delegate
            } else {
                OsDelegation::Immediate
            }),
            final(self).is_locked(),
            final(self).is_finished() == old(self).is_finished(),
            final(self).left() == old(self).left(),
    {
        if !self.locked {
            self.locked = true;
            OsDelegation::Immediate
        } else {
            OsDelegation::Delegate
        }
    }

    /// After work was executed in place: the lock stays taken only if the work
    /// was done. Everybody is to be signalled.
    pub fn executed(&mut self, done: bool)
        ensures
            final(self).is_locked() == (old(self).is_locked() && done),
            final(self).is_finished() == old(self).is_finished(),
            final(self).left() == old(self).left(),
    {
        if !done {
            self.locked = false;
        }
    }

    /// Leaves work for the consumer's thread. Everybody is to be signalled.
    pub fn delegate(&mut self, work: K)
        ensures
            final(self).is_locked() == old(self).is_locked(),
            final(self).is_finished() == old(self).is_finished(),
            final(self).left().len() == old(self).left().len() + 1,
            final(self).left().drop_last() == old(self).left(),
            final(self).left().last().0 == work,
            !final(self).left().last().1.is_waiting(),
            os_delegator_stepped(*old(self), *final(self), OsDelegatorStep::Leave(work)),
    {
        self.queue.push_back((work, OsSuspendedThread::new()));
        assert(self.queue@.drop_last() =~= old(self).queue@);
    }
}

/// What is done to a delegator: work is left, the oldest is taken to be
/// executed, or something else.
pub enum OsDelegatorStep<K> {
    Leave(K),
    Execute,
    Other,
}

/// Whether a step turns the delegator `a` into `b`.
pub open spec fn os_delegator_stepped<K>(
    a: OsDelegator<K>,
    b: OsDelegator<K>,
    step: OsDelegatorStep<K>,
) -> bool {
    match step {
        OsDelegatorStep::Leave(work) => {
            &&& b.left().len() == a.left().len() + 1
            &&& b.left().drop_last() == a.left()
            &&& b.left().last().0 == work
        },
        OsDelegatorStep::Execute => {
            a.left().len() > 0 && b.left() == a.left().drop_first()
        },
        OsDelegatorStep::Other => b.left() == a.left(),
    }
}

/// The work that these steps left, in order.
pub open spec fn work_left<K>(steps: Seq<OsDelegatorStep<K>>) -> Seq<K>
    decreases steps.len(),
{
    if steps.len() == 0 {
        Seq::empty()
    } else {
        match steps.last() {
            OsDelegatorStep::Leave(work) => work_left(steps.drop_last()).push(work),
            _ => work_left(steps.drop_last()),
        }
    }
}

/// How often work was taken to be executed.
pub open spec fn work_taken<K>(steps: Seq<OsDelegatorStep<K>>) -> nat
    decreases steps.len(),
{
    if steps.len() == 0 {
        0
    } else {
        work_taken(steps.drop_last()) + (if steps.last() is Execute {
            1nat
        } else {
            0nat
        })
    }
}

/// Work is served in the order in which it was left, and none is lost: what
/// has not been taken is what was left, without as much of the first as was
/// taken.
pub proof fn law_work_is_served_in_order<K>(
    states: Seq<OsDelegator<K>>,
    steps: Seq<OsDelegatorStep<K>>,
)
    requires
        states.len() == steps.len() + 1,
        states[0].left().len() == 0,
        forall|i: int|
            0 <= i < steps.len() ==> #[trigger] os_delegator_stepped(
                states[i],
                states[i + 1],
                steps[i],
            ),
    ensures
        ({
            let last = states[steps.len() as int].left();
            let k = work_taken(steps) as int;
            &&& work_left(steps).len() == k + last.len()
            &&& forall|i: int|
                0 <= i < last.len() ==> (#[trigger] last[i]).0 == work_left(steps)[k + i]
        }),
    decreases steps.len(),
{
    if steps.len() > 0 {
        let n = steps.len() as int;
        let before = steps.drop_last();
        let earlier = states.take(n);
        assert forall|i: int| 0 <= i < before.len() implies #[trigger] os_delegator_stepped(
            earlier[i],
            earlier[i + 1],
            before[i],
        ) by {
            assert(os_delegator_stepped(states[i], states[i + 1], steps[i]));
        }
        law_work_is_served_in_order(earlier, before);
        let a = states[n - 1].left();
        let b = states[n].left();
        assert(os_delegator_stepped(states[n - 1], states[n - 1 + 1], steps[n - 1]));
        let k = work_taken(steps) as int;
        assert forall|i: int| 0 <= i < b.len() implies (#[trigger] b[i]).0 == work_left(
            steps,
        )[k + i] by {
            match steps.last() {
                OsDelegatorStep::Leave(work) => {
                    if i < a.len() {
                        assert(b.drop_last()[i] == b[i]);
                        assert(a[i].0 == work_left(before)[k + i]);
                    }
                },
                OsDelegatorStep::Execute => {
                    assert(b[i] == a[i + 1]);
                    assert(a[i + 1].0 == work_left(before)[k - 1 + (i + 1)]);
                },
                OsDelegatorStep::Other => {
                    assert(a[i].0 == work_left(before)[k + i]);
                },
            }
        }
    }
}

/// A slot is read back as it was written, for its own thread, and no other slot of
/// that thread changes.
pub proof fn law_slot_is_read_back<T, U>(
    slot: OsTls<T>,
    other: OsTls<U>,
    before: OsTlsSlots,
    after: OsTlsSlots,
    p: usize,
)
    requires
        slot.wf(),
        other.wf(),
        slot.assigned() is Some,
        other.assigned() is Some,
        before@.len() == 16,
        after@ == before@.update(slot.assigned()->0 as int, p),
    ensures
        slot.assigned()->0 < 16,
        after@[slot.assigned()->0 as int] == p,
        other.assigned() != slot.assigned() ==> after@[other.assigned()->0 as int]
            == before@[other.assigned()->0 as int],
        after@.len() == 16,
{
}

/// Whether a step turns the waiting place `a` into `b`.
pub open spec fn os_thread_stepped(
    a: OsSuspendedThread,
    b: OsSuspendedThread,
    step: OsThreadStep,
) -> bool {
    match step {
        OsThreadStep::Wait => b.is_waiting() && !b.is_ready(),
        OsThreadStep::Notify => {
            &&& b.is_waiting() == a.is_waiting()
            &&& b.is_ready() == (a.is_ready() || a.is_waiting())
        },
        OsThreadStep::Leave => a.is_ready() && !b.is_waiting() && !b.is_ready(),
        OsThreadStep::Stay => !a.is_ready() && b == a,
    }
}

/// What is done to a waiting place: a thread begins to wait, somebody notifies it,
/// it leaves, or it wakes without reason and stays.
pub enum OsThreadStep {
    Wait,
    Notify,
    Leave,
    Stay,
}

/// A thread that waits leaves only after it was notified since it began to wait,
/// and once it was notified nothing keeps it: until it leaves it may leave, however
/// often it is notified again.
pub proof fn law_thread_leaves_after_a_notification(
    states: Seq<OsSuspendedThread>,
    steps: Seq<OsThreadStep>,
)
    requires
        states.len() == steps.len() + 1,
        states[0].is_waiting(),
        !states[0].is_ready(),
        forall|i: int|
            0 <= i < steps.len() ==> #[trigger] os_thread_stepped(
                states[i],
                states[i + 1],
                steps[i],
            ),
        forall|i: int|
            0 <= i < steps.len() ==> (#[trigger] steps[i]) is Notify || steps[i] is Stay,
    ensures
        states.last().is_waiting(),
        states.last().is_ready() <==> exists|i: int|
            0 <= i < steps.len() && (#[trigger] steps[i]) is Notify,
    decreases steps.len(),
{
    if steps.len() > 0 {
        let n = steps.len() as int;
        let before = steps.drop_last();
        let earlier = states.take(n);
        assert forall|i: int| 0 <= i < before.len() implies #[trigger] os_thread_stepped(
            earlier[i],
            earlier[i + 1],
            before[i],
        ) by {
            assert(os_thread_stepped(states[i], states[i + 1], steps[i]));
        }
        assert forall|i: int| 0 <= i < before.len() implies (#[trigger] before[i]) is Notify
            || before[i] is Stay by {
            assert(steps[i] is Notify || steps[i] is Stay);
        }
        law_thread_leaves_after_a_notification(earlier, before);
        assert(os_thread_stepped(states[n - 1], states[n - 1 + 1], steps[n - 1]));
        if earlier.last().is_ready() {
            let i = choose|i: int| 0 <= i < before.len() && (#[trigger] before[i]) is Notify;
            assert(steps[i] is Notify);
        } else {
            assert(forall|i: int| 0 <= i < before.len() ==> before[i] == steps[i]);
        }
        assert(steps[n - 1] == steps.last());
        if exists|i: int| 0 <= i < steps.len() && (#[trigger] steps[i]) is Notify {
            let i = choose|i: int| 0 <= i < steps.len() && (#[trigger] steps[i]) is Notify;
            if i < n - 1 {
                assert(before[i] is Notify);
            }
        }
    }
}

} // verus!
