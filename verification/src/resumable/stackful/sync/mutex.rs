//! Mutexes and condition variables.
//!
//! The state is changed under a spin lock. A task that has to wait keeps that
//! lock until it has left its stack and is parked, so whoever holds it finds
//! every waiter parked. Unlocking with waiters hands the mutex on: it stays
//! locked and the first waiter owns it.
use std::collections::VecDeque;

use vstd::prelude::*;

use crate::interchange::PointerInterchangeable;
use crate::resumable::common::desc::SuspendedTaskToken;
use crate::resumable::stackful::suspended::StackfulOnlyResumableCore;
use crate::resumable::stackful::sync::barrier;
use crate::resumable::stackful::sync::barrier::{drain_waiters, parked_slot};

verus! {

/// The state of a mutex.
pub struct MutexState<W> {
    locked: bool,
    waiters: VecDeque<W>,
    turn: Ghost<nat>,
}

impl<W: StackfulOnlyResumableCore> MutexState<W> {
    /// Whether somebody owns the mutex.
    pub closed spec fn is_locked(&self) -> bool {
        self.locked
    }

    /// Who waits for the mutex, in the order in which they came.
    pub closed spec fn waiting(&self) -> Seq<usize> {
        barrier::parked_in(self.waiters@)
    }

    /// Whose turn it is: how often the mutex was unlocked so far. Those who ask
    /// for the mutex own it in turns.
    pub closed spec fn turn(&self) -> nat {
        self.turn@
    }

    /// Every waiter is parked, and nobody waits for a mutex that is free.
    pub closed spec fn wf(&self) -> bool {
        &&& barrier::all_parked(self.waiters@)
        &&& self.waiters@.len() > 0 ==> self.locked
    }

    /// A free mutex.
    pub fn new() -> (r: Self)
        ensures
            r.wf(),
            !r.is_locked(),
            r.waiting() == Seq::<usize>::empty(),
            r.turn() == 0,
    {
        let r = MutexState { locked: false, waiters: VecDeque::new(), turn: Ghost(0) };
        assert(r.waiting() =~= Seq::<usize>::empty());
        r
    }

    /// Parks a task that found the mutex locked.
    pub fn park(&mut self, c: SuspendedTaskToken)
        requires
            old(self).wf(),
            old(self).is_locked(),
            c.ptr() != 0,
        ensures
            final(self).wf(),
            final(self).is_locked(),
            final(self).waiting() == old(self).waiting().push(c.ptr()),
            final(self).turn() == old(self).turn(),
            mutex_stepped(*old(self), *final(self), MutexStep::Lock(c.ptr())),
    {
        let ghost p = c.ptr();
        self.waiters.push_back(parked_slot(c));
        assert(self.waiting() =~= old(self).waiting().push(p));
    }
}

/// What a mutex is made of.
pub trait MutexCore<W: StackfulOnlyResumableCore>: Sized {
    /// What the mutex guards.
    type Data;

    /// The state of the mutex.
    spec fn guarded(&self) -> MutexState<W>;

    /// What the mutex guards.
    spec fn value(&self) -> Self::Data;

    fn new_core(data: Self::Data) -> (r: Self)
        ensures
            r.guarded().wf(),
            !r.guarded().is_locked(),
            r.guarded().waiting() == Seq::<usize>::empty(),
            r.guarded().turn() == 0,
            r.value() == data,
    ;

    fn state(&mut self) -> (r: &mut MutexState<W>)
        ensures
            *r == old(self).guarded(),
            final(self).guarded() == *final(r),
            final(self).value() == old(self).value(),
    ;

    fn data(&mut self) -> (r: &mut Self::Data)
        requires
            old(self).guarded().is_locked(),
        ensures
            *r == old(self).value(),
            final(self).value() == *final(r),
            final(self).guarded() == old(self).guarded(),
    ;
}

/// Shows that its holder owns the mutex it came from. Unlocking consumes it.
/// There is one for each turn: locking a free mutex makes it, or the
/// [`Handover`] of the owner before is turned into it.
pub struct MutexGuard {
    turn: Ghost<nat>,
}

/// The turn that an unlocking owner hands to the waiter it wakes, which makes
/// its guard of it.
pub struct Handover {
    turn: Ghost<nat>,
}

impl Handover {
    /// The turn that is handed over.
    pub closed spec fn turn(&self) -> nat {
        self.turn@
    }
}

impl MutexGuard {
    /// The turn in which the holder owns the mutex.
    pub closed spec fn turn(&self) -> nat {
        self.turn@
    }

    /// Whether the holder owns a mutex in this state: it is locked, and the
    /// turn is the holder's.
    pub open spec fn owns<W: StackfulOnlyResumableCore>(&self, s: MutexState<W>) -> bool {
        s.is_locked() && self.turn() == s.turn()
    }

    /// The guard of a task that was parked and has been woken: unlocking left
    /// the mutex locked for it and handed it the turn.
    pub fn resumed(handed: Handover) -> (r: Self)
        ensures
            r.turn() == handed.turn(),
    {
        MutexGuard { turn: handed.turn }
    }

    /// What the mutex guards, to its owner.
    pub fn deref_mut<'a, W: StackfulOnlyResumableCore, M: MutexCore<W>>(
        &self,
        mutex: &'a mut M,
    ) -> (r: &'a mut M::Data)
        requires
            self.owns(old(mutex).guarded()),
        ensures
            *r == old(mutex).value(),
            final(mutex).value() == *final(r),
            final(mutex).guarded() == old(mutex).guarded(),
    {
        mutex.data()
    }
}

/// Locks a mutex that is free. `None` means that the caller has to park, with
/// [`MutexState::park`] in the second half of its wait.
pub fn mutex_lock<W: StackfulOnlyResumableCore>(s: &mut MutexState<W>) -> (r: Option<MutexGuard>)
    requires
        old(s).wf(),
    ensures
        final(s).wf(),
        final(s).is_locked(),
        final(s).waiting() == old(s).waiting(),
        final(s).turn() == old(s).turn(),
        r is Some == !old(s).is_locked(),
        r matches Some(g) ==> g.owns(*final(s)),
        r is Some ==> forall|t: usize| #[trigger]
            mutex_stepped(*old(s), *final(s), MutexStep::Lock(t)),
{
    if !s.locked {
        s.locked = true;
        return Some(MutexGuard { turn: Ghost(s.turn@) });
    }
    None
}

/// Locks a mutex if it is free.
pub fn mutex_try_lock<W: StackfulOnlyResumableCore>(s: &mut MutexState<W>) -> (r: Option<
    MutexGuard,
>)
    requires
        old(s).wf(),
    ensures
        final(s).wf(),
        final(s).is_locked(),
        final(s).waiting() == old(s).waiting(),
        final(s).turn() == old(s).turn(),
        r is Some == !old(s).is_locked(),
        r matches Some(g) ==> g.owns(*final(s)),
        r is Some ==> forall|t: usize| #[trigger]
            mutex_stepped(*old(s), *final(s), MutexStep::Lock(t)),
{
    if !s.locked {
        s.locked = true;
        Some(MutexGuard { turn: Ghost(s.turn@) })
    } else {
        None
    }
}

/// Unlocks. The first waiter, if there is one, is handed out to be woken, with
/// the turn that comes next: it owns the mutex from now on.
pub fn mutex_unlock<W: StackfulOnlyResumableCore>(s: &mut MutexState<W>, guard: MutexGuard) -> (r:
    Option<(W, Handover)>)
    requires
        old(s).wf(),
        guard.owns(*old(s)),
    ensures
        final(s).wf(),
        final(s).is_locked() == (old(s).waiting().len() > 0),
        final(s).turn() == old(s).turn() + 1,
        match r {
            Some((w, handed)) => {
                &&& old(s).waiting().len() > 0
                &&& handed.turn() == final(s).turn()
                &&& w.parked() == Some(old(s).waiting()[0])
                &&& final(s).waiting() == old(s).waiting().drop_first()
            },
            None => old(s).waiting().len() == 0 && final(s).waiting() == old(s).waiting(),
        },
        mutex_stepped(*old(s), *final(s), MutexStep::Unlock),
{
    proof {
        s.turn@ = s.turn@ + 1;
    }
    match s.waiters.pop_front() {
        Some(w) => {
            assert(s.waiting() =~= old(s).waiting().drop_first());
            Some((w, Handover { turn: Ghost(s.turn@) }))
        },
        None => {
            s.locked = false;
            None
        },
    }
}

/// A mutex around a value.
pub struct Mutex<W, T> {
    state: MutexState<W>,
    data: T,
}

impl<W: StackfulOnlyResumableCore, T> MutexCore<W> for Mutex<W, T> {
    type Data = T;

    closed spec fn guarded(&self) -> MutexState<W> {
        self.state
    }

    closed spec fn value(&self) -> T {
        self.data
    }

    fn new_core(data: T) -> (r: Self) {
        Mutex { state: MutexState::new(), data }
    }

    fn state(&mut self) -> (r: &mut MutexState<W>) {
        &mut self.state
    }

    fn data(&mut self) -> (r: &mut T) {
        &mut self.data
    }
}

// ---------------------------------------------------------------------------
// Condvar
// ---------------------------------------------------------------------------

/// A condition variable.
pub struct Condvar<W> {
    waiters: VecDeque<W>,
}

impl<W: StackfulOnlyResumableCore> Condvar<W> {
    /// Who waits for a notification, in the order in which they came.
    pub closed spec fn waiting(&self) -> Seq<usize> {
        barrier::parked_in(self.waiters@)
    }

    /// Every waiter is parked.
    pub closed spec fn wf(&self) -> bool {
        barrier::all_parked(self.waiters@)
    }

    /// A condition variable that nobody waits for.
    pub fn new() -> (r: Self)
        ensures
            r.wf(),
            r.waiting() == Seq::<usize>::empty(),
    {
        let r = Condvar { waiters: VecDeque::new() };
        assert(r.waiting() =~= Seq::<usize>::empty());
        r
    }

    /// Second half of a wait: the task that was left is parked first, and only
    /// then is the mutex unlocked, so that a notification by the next owner of
    /// the mutex cannot miss it. The next owner is handed out to be woken, with
    /// its turn. A task that is notified locks the mutex again.
    pub fn wait(&mut self, mutex: &mut MutexState<W>, guard: MutexGuard, c: SuspendedTaskToken) -> (r:
        Option<(W, Handover)>)
        requires
            old(self).wf(),
            old(mutex).wf(),
            guard.owns(*old(mutex)),
            c.ptr() != 0,
        ensures
            final(self).wf(),
            final(self).waiting() == old(self).waiting().push(c.ptr()),
            condvar_stepped(
                old(self).waiting(),
                final(self).waiting(),
                CondvarStep::Wait(c.ptr()),
            ),
            final(mutex).wf(),
            final(mutex).is_locked() == (old(mutex).waiting().len() > 0),
            final(mutex).turn() == old(mutex).turn() + 1,
            match r {
                Some((w, handed)) => {
                    &&& old(mutex).waiting().len() > 0
                    &&& handed.turn() == final(mutex).turn()
                    &&& w.parked() == Some(old(mutex).waiting()[0])
                    &&& final(mutex).waiting() == old(mutex).waiting().drop_first()
                },
                None => old(mutex).waiting().len() == 0 && final(mutex).waiting() == old(
                    mutex,
                ).waiting(),
            },
    {
        let ghost p = c.ptr();
        self.waiters.push_back(parked_slot(c));
        assert(self.waiting() =~= old(self).waiting().push(p));
        mutex_unlock(mutex, guard)
    }

    /// Takes the first waiter, to wake it.
    pub fn notify_one(&mut self) -> (r: Option<W>)
        requires
            old(self).wf(),
        ensures
            final(self).wf(),
            match r {
                Some(w) => {
                    &&& old(self).waiting().len() > 0
                    &&& w.parked() == Some(old(self).waiting()[0])
                    &&& final(self).waiting() == old(self).waiting().drop_first()
                },
                None => old(self).waiting().len() == 0 && final(self).waiting() == old(
                    self,
                ).waiting(),
            },
            condvar_stepped(
                old(self).waiting(),
                final(self).waiting(),
                CondvarStep::NotifyOne,
            ),
    {
        match self.waiters.pop_front() {
            Some(w) => {
                assert(self.waiting() =~= old(self).waiting().drop_first());
                Some(w)
            },
            None => None,
        }
    }

    /// Takes all waiters, to wake them in the order in which they came.
    pub fn notify_all(&mut self) -> (r: Vec<W>)
        requires
            old(self).wf(),
        ensures
            final(self).wf(),
            final(self).waiting() == Seq::<usize>::empty(),
            barrier::all_parked(r@),
            barrier::parked_in(r@) == old(self).waiting(),
            r@.len() == old(self).waiting().len(),
            forall|i: int|
                0 <= i < r@.len() ==> (#[trigger] r@[i]).parked() == Some(old(self).waiting()[i]),
            condvar_stepped(
                old(self).waiting(),
                final(self).waiting(),
                CondvarStep::NotifyAll,
            ),
    {
        let r = drain_waiters(&mut self.waiters);
        assert(self.waiting() =~= Seq::<usize>::empty());
        r
    }
}

// ---------------------------------------------------------------------------
// Laws
// ---------------------------------------------------------------------------

/// What is done to a mutex: a task asks for it, or its owner unlocks it.
pub enum MutexStep {
    Lock(usize),
    Unlock,
}

/// Whether a step turns the mutex `a` into `b`. Who asks for a mutex that is
/// locked parks with [`MutexState::park`].
pub open spec fn mutex_stepped<W: StackfulOnlyResumableCore>(
    a: MutexState<W>,
    b: MutexState<W>,
    step: MutexStep,
) -> bool {
    match step {
        MutexStep::Lock(t) => {
            &&& b.is_locked()
            &&& b.turn() == a.turn()
            &&& b.waiting() == (if a.is_locked() {
                a.waiting().push(t)
            } else {
                a.waiting()
            })
        },
        MutexStep::Unlock => {
            &&& a.is_locked()
            &&& b.turn() == a.turn() + 1
            &&& b.is_locked() == (a.waiting().len() > 0)
            &&& b.waiting() == (if a.waiting().len() > 0 {
                a.waiting().drop_first()
            } else {
                a.waiting()
            })
        },
    }
}

/// Whether `states` are the states of a mutex that is free at first and that
/// these steps are done to.
pub open spec fn is_mutex_run<W: StackfulOnlyResumableCore>(
    states: Seq<MutexState<W>>,
    steps: Seq<MutexStep>,
) -> bool {
    &&& states.len() == steps.len() + 1
    &&& !states[0].is_locked()
    &&& states[0].waiting() == Seq::<usize>::empty()
    &&& states[0].turn() == 0
    &&& forall|i: int|
        0 <= i < steps.len() ==> #[trigger] mutex_stepped(states[i], states[i + 1], steps[i])
}

/// Who owns the mutex after these steps: who asked for it when it was free, or
/// who was woken by the last owner.
pub open spec fn mutex_owner<W: StackfulOnlyResumableCore>(
    states: Seq<MutexState<W>>,
    steps: Seq<MutexStep>,
) -> Option<usize>
    decreases steps.len(),
{
    if steps.len() == 0 {
        None
    } else {
        let before = states[steps.len() - 1];
        match steps.last() {
            MutexStep::Lock(t) => if before.is_locked() {
                mutex_owner(states, steps.drop_last())
            } else {
                Some(t)
            },
            MutexStep::Unlock => if before.waiting().len() > 0 {
                Some(before.waiting()[0])
            } else {
                None
            },
        }
    }
}

/// Who asked for the mutex, in the order in which they asked.
pub open spec fn asked(steps: Seq<MutexStep>) -> Seq<usize>
    decreases steps.len(),
{
    if steps.len() == 0 {
        Seq::empty()
    } else {
        match steps.last() {
            MutexStep::Lock(t) => asked(steps.drop_last()).push(t),
            MutexStep::Unlock => asked(steps.drop_last()),
        }
    }
}

/// How often the mutex was unlocked.
pub open spec fn unlocks(steps: Seq<MutexStep>) -> nat
    decreases steps.len(),
{
    if steps.len() == 0 {
        0
    } else {
        unlocks(steps.drop_last()) + (if steps.last() is Unlock {
            1nat
        } else {
            0nat
        })
    }
}

/// The owner depends only on the states that the steps have led through.
proof fn lemma_owner_of_prefix<W: StackfulOnlyResumableCore>(
    states: Seq<MutexState<W>>,
    n: int,
    steps: Seq<MutexStep>,
)
    requires
        steps.len() <= n <= states.len(),
    ensures
        mutex_owner(states.take(n), steps) == mutex_owner(states, steps),
    decreases steps.len(),
{
    if steps.len() > 0 {
        lemma_owner_of_prefix(states, n, steps.drop_last());
    }
}

/// A mutex has one owner at a time and is fair: those who asked own it one
/// after the other in the order in which they asked. After `k` unlocks the
/// `k`th who asked, counted from zero, owns it, the turn is the `k`th, and those
/// after it wait in order; when everyone who asked has unlocked, the mutex is free.
pub proof fn law_mutex_is_fair<W: StackfulOnlyResumableCore>(
    states: Seq<MutexState<W>>,
    steps: Seq<MutexStep>,
)
    requires
        is_mutex_run(states, steps),
    ensures
        ({
            let last = states[steps.len() as int];
            let k = unlocks(steps) as int;
            &&& k <= asked(steps).len()
            &&& last.turn() == k
            &&& if k < asked(steps).len() {
                &&& mutex_owner(states, steps) == Some(asked(steps)[k])
                &&& last.is_locked()
                &&& last.waiting() == asked(steps).skip(k + 1)
            } else {
                &&& mutex_owner(states, steps) is None
                &&& !last.is_locked()
                &&& last.waiting() == Seq::<usize>::empty()
            }
        }),
    decreases steps.len(),
{
    if steps.len() > 0 {
        let n = steps.len() as int;
        let before = steps.drop_last();
        let earlier = states.take(n);
        assert forall|i: int| 0 <= i < before.len() implies #[trigger] mutex_stepped(
            earlier[i],
            earlier[i + 1],
            before[i],
        ) by {
            assert(mutex_stepped(states[i], states[i + 1], steps[i]));
        }
        law_mutex_is_fair(earlier, before);
        lemma_owner_of_prefix(states, n, before);
        assert(mutex_stepped(states[n - 1], states[n - 1 + 1], steps[n - 1]));
        let k = unlocks(before) as int;
        let a = asked(before);
        match steps.last() {
            MutexStep::Lock(t) => {
                if k < a.len() {
                    assert(a.push(t).skip(k + 1) =~= a.skip(k + 1).push(t));
                } else {
                    assert(a.push(t).skip(k + 1) =~= Seq::<usize>::empty());
                }
            },
            MutexStep::Unlock => {
                if k + 1 < a.len() {
                    assert(a.skip(k + 1).drop_first() =~= a.skip(k + 2));
                } else {
                    assert(a.skip(k + 1) =~= Seq::<usize>::empty());
                }
            },
        }
    }
}

/// A guard is good for one turn: whoever owns the mutex in a state owns it in the
/// same turn as anybody else who does, and nobody owns it any more after it is
/// unlocked, however often it is locked again.
pub proof fn law_guard_ends_with_its_turn<W: StackfulOnlyResumableCore>(
    states: Seq<MutexState<W>>,
    steps: Seq<MutexStep>,
    i: int,
    j: int,
    g: MutexGuard,
    h: MutexGuard,
)
    requires
        is_mutex_run(states, steps),
        0 <= i <= j <= steps.len(),
        g.owns(states[i]),
        h.owns(states[j]),
    ensures
        states[i].is_locked(),
        g.turn() == unlocks(steps.take(i)),
        g.turn() == h.turn() <==> unlocks(steps.take(i)) == unlocks(steps.take(j)),
        g.owns(states[j]) <==> states[j].is_locked() && unlocks(steps.take(i)) == unlocks(
            steps.take(j),
        ),
{
    lemma_turn_counts_unlocks(states, steps, i);
    lemma_turn_counts_unlocks(states, steps, j);
}

proof fn lemma_turn_counts_unlocks<W: StackfulOnlyResumableCore>(
    states: Seq<MutexState<W>>,
    steps: Seq<MutexStep>,
    i: int,
)
    requires
        is_mutex_run(states, steps),
        0 <= i <= steps.len(),
    ensures
        states[i].turn() == unlocks(steps.take(i)),
{
    let prefix = states.take(i + 1);
    assert forall|k: int| 0 <= k < i implies #[trigger] mutex_stepped(
        prefix[k],
        prefix[k + 1],
        steps.take(i)[k],
    ) by {
        assert(mutex_stepped(states[k], states[k + 1], steps[k]));
    }
    law_mutex_is_fair(prefix, steps.take(i));
}

/// What is done to a condition variable: a task waits, or one or all are
/// notified.
pub enum CondvarStep {
    Wait(usize),
    NotifyOne,
    NotifyAll,
}

/// Whether a step turns those who wait from `a` into `b`.
pub open spec fn condvar_stepped(a: Seq<usize>, b: Seq<usize>, step: CondvarStep) -> bool {
    match step {
        CondvarStep::Wait(t) => b == a.push(t),
        CondvarStep::NotifyOne => b == (if a.len() > 0 {
            a.drop_first()
        } else {
            a
        }),
        CondvarStep::NotifyAll => b.len() == 0,
    }
}

/// Who has waited, in the order in which they came.
pub open spec fn came_to_wait(steps: Seq<CondvarStep>) -> Seq<usize>
    decreases steps.len(),
{
    if steps.len() == 0 {
        Seq::empty()
    } else {
        match steps.last() {
            CondvarStep::Wait(t) => came_to_wait(steps.drop_last()).push(t),
            _ => came_to_wait(steps.drop_last()),
        }
    }
}

/// How many of them were notified.
pub open spec fn notified(steps: Seq<CondvarStep>) -> nat
    decreases steps.len(),
{
    if steps.len() == 0 {
        0
    } else {
        let before = notified(steps.drop_last());
        let came = came_to_wait(steps.drop_last()).len();
        match steps.last() {
            CondvarStep::Wait(_) => before,
            CondvarStep::NotifyOne => if before < came {
                before + 1
            } else {
                before
            },
            CondvarStep::NotifyAll => came,
        }
    }
}

/// Notifications wake tasks in the order in which they came to wait, each once,
/// and a notification that finds nobody is not kept for later: those who wait are
/// always those who came, without as many of the first as were notified.
pub proof fn law_waiters_are_notified_in_order(states: Seq<Seq<usize>>, steps: Seq<CondvarStep>)
    requires
        states.len() == steps.len() + 1,
        states[0].len() == 0,
        forall|i: int|
            0 <= i < steps.len() ==> #[trigger] condvar_stepped(states[i], states[i + 1], steps[i]),
    ensures
        notified(steps) <= came_to_wait(steps).len(),
        states[steps.len() as int] == came_to_wait(steps).skip(notified(steps) as int),
    decreases steps.len(),
{
    if steps.len() == 0 {
        assert(states[0] =~= came_to_wait(steps).skip(0));
    } else {
        let n = steps.len() as int;
        let before = steps.drop_last();
        let earlier = states.take(n);
        assert forall|i: int| 0 <= i < before.len() implies #[trigger] condvar_stepped(
            earlier[i],
            earlier[i + 1],
            before[i],
        ) by {
            assert(condvar_stepped(states[i], states[i + 1], steps[i]));
        }
        law_waiters_are_notified_in_order(earlier, before);
        assert(condvar_stepped(states[n - 1], states[n - 1 + 1], steps[n - 1]));
        let k = notified(before) as int;
        let came = came_to_wait(before);
        match steps.last() {
            CondvarStep::Wait(t) => {
                assert(came.push(t).skip(k) =~= came.skip(k).push(t));
            },
            CondvarStep::NotifyOne => {
                if k < came.len() {
                    assert(came.skip(k).drop_first() =~= came.skip(k + 1));
                }
            },
            CondvarStep::NotifyAll => {
                assert(states[n] =~= came.skip(came.len() as int));
            },
        }
    }
}

} // verus!
