//! Barriers.
//!
//! The state of a barrier is changed under its lock. A task that has to wait
//! keeps the lock until it has left its stack and is parked, so whoever holds
//! the lock finds every waiter parked.
use std::collections::VecDeque;

use vstd::prelude::*;

use crate::interchange::PointerInterchangeable;
use crate::resumable::common::desc::SuspendedTaskToken;
use crate::resumable::stackful::suspended::StackfulOnlyResumableCore;

verus! {

/// The addresses of the tasks parked in a sequence of slots.
pub open spec fn parked_in<W: StackfulOnlyResumableCore>(slots: Seq<W>) -> Seq<usize> {
    Seq::new(slots.len(), |i: int| slots[i].parked()->0)
}

/// Whether every slot holds a task.
pub open spec fn all_parked<W: StackfulOnlyResumableCore>(slots: Seq<W>) -> bool {
    forall|i: int| 0 <= i < slots.len() ==> (#[trigger] slots[i]).parked() is Some
}

/// What one arrival comes to.
pub enum BarrierStep<W> {
    /// The last one: the caller leads, and wakes these in this order.
    Lead(Vec<W>),
    /// Not the last one: the caller parks.
    Park,
}

/// What a barrier answers to a task that went through it.
#[derive(Clone, Copy, PartialEq, Eq, Structural, Debug)]
pub struct BarrierWaitResult {
    pub is_leader: bool,
}

/// The state of a barrier.
pub struct BarrierState<W> {
    count: usize,
    waiters: VecDeque<W>,
}

/// A slot that holds a task.
pub fn parked_slot<W: StackfulOnlyResumableCore>(c: SuspendedTaskToken) -> (r: W)
    requires
        c.ptr() != 0,
    ensures
        r.parked() == Some(c.ptr()),
{
    let mut slot = W::new_empty();
    slot.park(c);
    slot
}

/// Takes all waiters, in the order in which they came.
pub fn drain_waiters<W: StackfulOnlyResumableCore>(waiters: &mut VecDeque<W>) -> (r: Vec<W>)
    ensures
        final(waiters)@ == Seq::<W>::empty(),
        r@ == old(waiters)@,
{
    let ghost all = waiters@;
    let mut out: Vec<W> = Vec::new();
    while waiters.len() > 0
        invariant
            out@ + waiters@ == all,
        decreases waiters.len(),
    {
        let ghost rest = waiters@;
        let w = waiters.pop_front();
        if let Some(w) = w {
            out.push(w);
        }
        assert(out@ + waiters@ =~= all);
    }
    assert(out@ =~= all);
    out
}

impl<W: StackfulOnlyResumableCore> BarrierState<W> {
    /// The waiters, in the order in which they came.
    pub closed spec fn waiting(&self) -> Seq<usize> {
        parked_in(self.waiters@)
    }

    /// How many have arrived in this round.
    pub closed spec fn arrived(&self) -> nat {
        self.count as nat
    }

    /// Everyone who has arrived is parked, `n` at most.
    pub closed spec fn wf(&self, n: usize) -> bool {
        &&& all_parked(self.waiters@)
        &&& self.count == self.waiters@.len()
        &&& self.count < n
    }

    /// As [`Self::wf`], but that the one who arrived last has yet to park.
    pub closed spec fn wf_parking(&self, n: usize) -> bool {
        &&& all_parked(self.waiters@)
        &&& self.count == self.waiters@.len() + 1
        &&& self.count < n
    }

    /// A new round.
    pub fn new() -> (r: Self)
        ensures
            forall|n: usize| n > 0 ==> r.wf(n),
            r.waiting() == Seq::<usize>::empty(),
            r.arrived() == 0,
    {
        let r = BarrierState { count: 0, waiters: VecDeque::new() };
        assert(r.waiting() =~= Seq::<usize>::empty());
        r
    }

    /// One arrival at a barrier for `n`.
    pub fn arrive(&mut self, n: usize) -> (r: BarrierStep<W>)
        requires
            old(self).wf(n),
        ensures
            match r {
                BarrierStep::Lead(ws) => {
                    &&& old(self).arrived() + 1 == n
                    &&& final(self).wf(n)
                    &&& final(self).arrived() == 0
                    &&& final(self).waiting() == Seq::<usize>::empty()
                    &&& all_parked(ws@)
                    &&& parked_in(ws@) == old(self).waiting()
                    &&& ws@.len() + 1 == n
                    &&& forall|i: int|
                        0 <= i < ws@.len() ==> (#[trigger] ws@[i]).parked() == Some(
                            old(self).waiting()[i],
                        )
                    &&& forall|t: usize| #[trigger] arrived_at(*old(self), *final(self), t, n)
                },
                BarrierStep::Park => {
                    &&& old(self).arrived() + 1 < n
                    &&& final(self).wf_parking(n)
                    &&& final(self).arrived() == old(self).arrived() + 1
                    &&& final(self).waiting() == old(self).waiting()
                },
            },
    {
        self.count = self.count + 1;
        if self.count == n {
            self.count = 0;
            let ws = drain_waiters(&mut self.waiters);
            assert(self.waiting() =~= Seq::<usize>::empty());
            return BarrierStep::Lead(ws);
        }
        BarrierStep::Park
    }

    /// Parks the one who arrived last.
    pub fn park(&mut self, n: usize, c: SuspendedTaskToken)
        requires
            old(self).wf_parking(n),
            c.ptr() != 0,
        ensures
            final(self).wf(n),
            final(self).arrived() == old(self).arrived(),
            final(self).waiting() == old(self).waiting().push(c.ptr()),
    {
        let ghost p = c.ptr();
        self.waiters.push_back(parked_slot(c));
        assert(self.waiting() =~= old(self).waiting().push(p));
    }
}

/// What the barrier and its waiting tasks are made of.
pub trait BarrierCore<W: StackfulOnlyResumableCore>: Sized {
    /// How many tasks a round takes.
    spec fn parties(&self) -> usize;

    /// The state of the round.
    spec fn round(&self) -> BarrierState<W>;

    fn new_core(count: usize) -> (r: Self)
        requires
            count > 0,
        ensures
            r.parties() == count,
            r.round().wf(count),
            r.round().arrived() == 0,
            r.round().waiting() == Seq::<usize>::empty(),
    ;

    fn n(&self) -> (r: usize)
        ensures
            r == self.parties(),
    ;

    fn state(&mut self) -> (r: &mut BarrierState<W>)
        ensures
            *r == old(self).round(),
            final(self).round() == *final(r),
            final(self).parties() == old(self).parties(),
    ;

    /// One arrival: the leader wakes the others, everyone else parks with
    /// [`BarrierState::park`].
    fn wait(&mut self) -> (r: BarrierStep<W>)
        requires
            old(self).round().wf(old(self).parties()),
        ensures
            final(self).parties() == old(self).parties(),
            match r {
                BarrierStep::Lead(ws) => {
                    &&& old(self).round().arrived() + 1 == old(self).parties()
                    &&& final(self).round().wf(old(self).parties())
                    &&& final(self).round().waiting() == Seq::<usize>::empty()
                    &&& final(self).round().arrived() == 0
                    &&& all_parked(ws@)
                    &&& parked_in(ws@) == old(self).round().waiting()
                    &&& ws@.len() + 1 == old(self).parties()
                    &&& forall|i: int|
                        0 <= i < ws@.len() ==> (#[trigger] ws@[i]).parked() == Some(
                            old(self).round().waiting()[i],
                        )
                },
                BarrierStep::Park => {
                    &&& old(self).round().arrived() + 1 < old(self).parties()
                    &&& final(self).round().wf_parking(old(self).parties())
                    &&& final(self).round().arrived() == old(self).round().arrived() + 1
                    &&& final(self).round().waiting() == old(self).round().waiting()
                },
            },
    {
        let n: usize = self.n();
        self.state().arrive(n)
    }

    /// Second half of a wait: the task that was left is parked.
    fn park(&mut self, c: SuspendedTaskToken)
        requires
            old(self).round().wf_parking(old(self).parties()),
            c.ptr() != 0,
        ensures
            final(self).parties() == old(self).parties(),
            final(self).round().wf(old(self).parties()),
            final(self).round().arrived() == old(self).round().arrived(),
            final(self).round().waiting() == old(self).round().waiting().push(c.ptr()),
    {
        let n: usize = self.n();
        self.state().park(n, c)
    }
}

/// A barrier for `n` tasks.
pub struct Barrier<W> {
    n: usize,
    state: BarrierState<W>,
}

impl<W: StackfulOnlyResumableCore> Barrier<W> {
    /// A barrier for `n` tasks.
    pub fn new(n: usize) -> (r: Self)
        requires
            n > 0,
        ensures
            r.parties() == n,
            r.round().wf(n),
            r.round().arrived() == 0,
            r.round().waiting() == Seq::<usize>::empty(),
    {
        Barrier { n, state: BarrierState::new() }
    }
}

impl<W: StackfulOnlyResumableCore> BarrierCore<W> for Barrier<W> {
    closed spec fn parties(&self) -> usize {
        self.n
    }

    closed spec fn round(&self) -> BarrierState<W> {
        self.state
    }

    fn new_core(count: usize) -> (r: Self) {
        Barrier::new(count)
    }

    fn n(&self) -> (r: usize) {
        self.n
    }

    fn state(&mut self) -> (r: &mut BarrierState<W>) {
        &mut self.state
    }
}

// ---------------------------------------------------------------------------
// Laws
// ---------------------------------------------------------------------------

/// Whether the arrival of `task` at a barrier for `n` turns the round `a` into
/// `b`. Who does not complete the round parks with [`BarrierState::park`].
pub open spec fn arrived_at<W: StackfulOnlyResumableCore>(
    a: BarrierState<W>,
    b: BarrierState<W>,
    task: usize,
    n: usize,
) -> bool {
    if a.arrived() + 1 == n {
        b.arrived() == 0 && b.waiting() == Seq::<usize>::empty()
    } else {
        b.arrived() == a.arrived() + 1 && b.waiting() == a.waiting().push(task)
    }
}

/// A barrier goes round and round: at any time exactly those wait who arrived
/// since the last round was full, in the order in which they came. So every
/// `n`th arrival, and no other, releases all who wait.
pub proof fn law_barrier_rounds<W: StackfulOnlyResumableCore>(
    states: Seq<BarrierState<W>>,
    arrivals: Seq<usize>,
    n: usize,
)
    requires
        n > 0,
        states.len() == arrivals.len() + 1,
        states[0].arrived() == 0,
        states[0].waiting() == Seq::<usize>::empty(),
        forall|i: int|
            0 <= i < arrivals.len() ==> #[trigger] arrived_at(
                states[i],
                states[i + 1],
                arrivals[i],
                n,
            ),
    ensures
        ({
            let k = arrivals.len() as int;
            let last = states[k];
            &&& last.arrived() == k % n as int
            &&& last.waiting() == arrivals.skip(k - k % n as int)
        }),
    decreases arrivals.len(),
{
    let k = arrivals.len() as int;
    let m = n as int;
    if k == 0 {
        vstd::arithmetic::div_mod::lemma_small_mod(0, n as nat);
        assert(arrivals.skip(0) =~= Seq::<usize>::empty());
    } else {
        let before = arrivals.drop_last();
        let earlier = states.take(k);
        assert forall|i: int| 0 <= i < before.len() implies #[trigger] arrived_at(
            earlier[i],
            earlier[i + 1],
            before[i],
            n,
        ) by {
            assert(arrived_at(states[i], states[i + 1], arrivals[i], n));
        }
        law_barrier_rounds(earlier, before, n);
        assert(arrived_at(states[k - 1], states[k - 1 + 1], arrivals[k - 1], n));
        let r = (k - 1) % m;
        vstd::arithmetic::div_mod::lemma_mod_bound(k - 1, m);
        vstd::arithmetic::div_mod::lemma_mod_decreases((k - 1) as nat, n as nat);
        vstd::arithmetic::div_mod::lemma_fundamental_div_mod(k - 1, m);
        let q = (k - 1) / m;
        if r + 1 == m {
            assert(k % m == 0) by {
                assert(k == (q + 1) * m) by (nonlinear_arith)
                    requires
                        k - 1 == m * q + r,
                        r + 1 == m,
                ;
                vstd::arithmetic::div_mod::lemma_mod_multiples_basic(q + 1, m);
            }
            assert(arrivals.skip(k) =~= Seq::<usize>::empty());
        } else {
            assert(k % m == r + 1) by {
                assert(k == q * m + (r + 1)) by (nonlinear_arith)
                    requires
                        k - 1 == m * q + r,
                ;
                vstd::arithmetic::div_mod::lemma_fundamental_div_mod_converse(k, m, q, r + 1);
            }
            assert(before.skip(k - 1 - r).push(arrivals.last()) =~= arrivals.skip(k - 1 - r));
        }
    }
}

} // verus!
