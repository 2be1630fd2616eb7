//! A mutex that queues its waiters through links of their own.
//!
//! Each task that wants the mutex brings a node. The tail names the node that
//! came last; a node's link names the one that came after it. A waiter sets
//! the link to itself only after it is parked, so for a moment an owner may
//! know that somebody comes next without seeing who.
use std::collections::VecDeque;

use vstd::prelude::*;

use crate::interchange::PointerInterchangeable;
use crate::resumable::common::desc::SuspendedTaskToken;
use crate::resumable::stackful::suspended::StackfulOnlyResumableCore;
use crate::resumable::stackful::sync::barrier;
use crate::resumable::stackful::sync::barrier::{drain_waiters, parked_slot};
use crate::resumable::stackful::sync::mutex;
use crate::resumable::stackful::sync::mutex::CondvarStep;

verus! {

/// The node that one task brings. A link of zero is unset.
pub struct McsNode<W> {
    next: usize,
    suspended: W,
}

/// What an owner that unlocks comes to.
pub enum UnlockStep<W> {
    /// Nobody came after it: the mutex is free.
    Free,
    /// Somebody came after it but is not parked yet: try again, after a yield
    /// if asked to.
    Again { guard: McsMutexGuard, yield_first: bool },
    /// The next owner, to be woken, and what makes it the owner.
    Wake(W, McsHandover),
}

/// A mutex around a value. Node `i + 1` lies at index `i`; the nodes of tasks
/// that are through are vacant.
pub struct McsMutex<W, T> {
    tail: usize,
    nodes: Vec<McsNode<W>>,
    vacant: Vec<usize>,
    data: T,
    queue: Ghost<Seq<usize>>,
}

/// Shows that its holder owns the mutex, with the holder's node.
pub struct McsMutexGuard {
    node: usize,
}

/// What an unlocking owner hands to the waiter it wakes, with the waiter's node.
/// The waiter makes its guard of it.
pub struct McsHandover {
    node: usize,
}

impl McsHandover {
    /// The next owner's node.
    pub closed spec fn id(&self) -> usize {
        self.node
    }
}

impl McsMutexGuard {
    /// The owner's node.
    pub closed spec fn id(&self) -> usize {
        self.node
    }

    /// The guard of a task that was parked and has been woken.
    pub fn resumed(handed: McsHandover) -> (r: Self)
        ensures
            r.id() == handed.id(),
    {
        McsMutexGuard { node: handed.node }
    }
}

/// How many fruitless rounds an unlocking owner makes before it yields.
pub const SPINS_PER_YIELD: u32 = 64;

impl<W: StackfulOnlyResumableCore, T> McsMutex<W, T> {
    /// The nodes of the owner and of those who wait, in the order in which
    /// they came.
    pub closed spec fn order(&self) -> Seq<usize> {
        self.queue@
    }

    /// What the mutex guards.
    pub closed spec fn value(&self) -> T {
        self.data
    }

    /// Whether the node at place `i` of the order, not the owner's, is parked
    /// and linked.
    pub closed spec fn linked(&self, i: int) -> bool {
        self.nodes@[self.queue@[i - 1] - 1].next == self.queue@[i]
    }

    /// The task parked with the node at place `i` of the order.
    pub closed spec fn parked(&self, i: int) -> Option<usize> {
        self.nodes@[self.queue@[i] - 1].suspended.parked()
    }

    /// Whether a node can be brought: not every name for a node is in use.
    pub open spec fn has_room(&self) -> bool {
        self.order().len() < usize::MAX
    }

    /// The order has no node twice; the tail is its last node; a link is
    /// unset or names the node that came next, which is then parked; every
    /// other node is vacant.
    pub closed spec fn wf(&self) -> bool {
        let q = self.queue@;
        &&& q.no_duplicates()
        &&& forall|i: int| 0 <= i < q.len() ==> 1 <= (#[trigger] q[i]) <= self.nodes@.len()
        &&& self.tail == (if q.len() == 0 {
            0
        } else {
            q.last()
        })
        &&& forall|i: int|
            0 <= i < q.len() - 1 ==> {
                let next = (#[trigger] self.nodes@[q[i] - 1]).next;
                next == 0 || next == q[i + 1]
            }
        &&& q.len() > 0 ==> self.nodes@[q.last() - 1].next == 0
        &&& forall|i: int|
            1 <= i < q.len() && self.linked(i) ==> #[trigger] self.parked(i) is Some
        &&& q.len() + self.vacant@.len() == self.nodes@.len()
        &&& self.vacant@.no_duplicates()
        &&& forall|i: int|
            0 <= i < self.vacant@.len() ==> 1 <= (#[trigger] self.vacant@[i]) <= self.nodes@.len()
        &&& forall|i: int, j: int|
            0 <= i < q.len() && 0 <= j < self.vacant@.len() ==> #[trigger] q[i]
                != #[trigger] self.vacant@[j]
    }

    /// A free mutex.
    pub fn new(data: T) -> (r: Self)
        ensures
            r.wf(),
            r.has_room(),
            r.order() == Seq::<usize>::empty(),
            r.value() == data,
    {
        McsMutex {
            tail: 0,
            nodes: Vec::new(),
            vacant: Vec::new(),
            data,
            queue: Ghost(Seq::empty()),
        }
    }

    /// Brings a node: it is the last of the order. A guard comes back when
    /// nobody was before it; otherwise the node and the one before it, and the
    /// caller parks with [`Self::park`].
    pub fn lock(&mut self) -> (r: Result<McsMutexGuard, (usize, usize)>)
        requires
            old(self).wf(),
            old(self).has_room(),
        ensures
            final(self).wf(),
            final(self).value() == old(self).value(),
            final(self).order().len() == old(self).order().len() + 1,
            final(self).order().drop_last() == old(self).order(),
            forall|i: int|
                1 <= i < old(self).order().len() ==> #[trigger] final(self).linked(i) == old(
                    self,
                ).linked(i),
            forall|i: int|
                0 <= i < old(self).order().len() ==> #[trigger] final(self).parked(i) == old(
                    self,
                ).parked(i),
            final(self).parked(old(self).order().len() as int) is None,
            match r {
                Ok(g) => old(self).order().len() == 0 && final(self).order() == seq![g.id()],
                Err((prev, node)) => {
                    &&& old(self).order().len() > 0
                    &&& prev == old(self).order().last()
                    &&& node == final(self).order().last()
                    &&& !final(self).linked(old(self).order().len() as int)
                },
            },
            mcs_stepped(*old(self), *final(self), McsStep::Come(final(self).order().last())),
    {
        let fresh = McsNode { next: 0, suspended: W::new_empty() };
        let ghost q = self.queue@;
        let ghost old_nodes = self.nodes@;
        let node: usize = match self.vacant.pop() {
            Some(node) => {
                assert(old(self).vacant@.last() == node);
                self.nodes[node - 1] = fresh;
                node
            },
            None => {
                self.nodes.push(fresh);
                self.nodes.len()
            },
        };
        let prev: usize = self.tail;
        self.tail = node;
        proof {
            self.queue@ = q.push(node);
            assert(forall|i: int| 0 <= i < q.len() ==> #[trigger] q[i] != node);
            assert forall|i: int| 0 <= i < q.len() implies self.nodes@[(#[trigger] q[i]) - 1]
                == old_nodes[q[i] - 1] by {
            }
            assert(self.queue@.drop_last() =~= q);
            assert forall|i: int| 1 <= i < q.len() implies #[trigger] self.linked(i) == old(
                self,
            ).linked(i) by {
                assert(self.queue@[i - 1] == q[i - 1]);
            }
            assert forall|i: int| 0 <= i < q.len() implies #[trigger] self.parked(i) == old(
                self,
            ).parked(i) by {
                assert(self.queue@[i] == q[i]);
            }
            assert(self.wf());
        }
        if prev == 0 {
            assert(q.len() == 0);
            assert(self.order() =~= seq![node]);
            Ok(McsMutexGuard { node })
        } else {
            Err((prev, node))
        }
    }

    /// The place of a node in the order.
    pub open spec fn place(&self, node: usize) -> int {
        self.order().index_of(node)
    }

    /// Second half of a wait: parks the task that was left with its node, and
    /// then links the node to the one before it.
    pub fn park(&mut self, prev: usize, node: usize, c: SuspendedTaskToken)
        requires
            old(self).wf(),
            old(self).order().contains(node),
            old(self).place(node) >= 1,
            prev == old(self).order()[old(self).place(node) - 1],
            !old(self).linked(old(self).place(node)),
            c.ptr() != 0,
        ensures
            final(self).wf(),
            final(self).order() == old(self).order(),
            final(self).has_room() == old(self).has_room(),
            final(self).value() == old(self).value(),
            final(self).linked(old(self).place(node)),
            final(self).parked(old(self).place(node)) == Some(c.ptr()),
            forall|j: int|
                1 <= j < old(self).order().len() && j != old(self).place(node)
                    ==> #[trigger] final(self).linked(j) == old(self).linked(j),
            forall|j: int|
                0 <= j < old(self).order().len() && j != old(self).place(node)
                    ==> #[trigger] final(self).parked(j) == old(self).parked(j),
    {
        let ghost q = self.queue@;
        let ghost i = self.place(node);
        assert(q[i] == node);
        assert(q[i - 1] == prev);
        self.nodes[node - 1].suspended.park(c);
        self.nodes[prev - 1].next = node;
        proof {
            assert forall|j: int| 1 <= j < q.len() && j != i implies #[trigger] self.linked(j)
                == old(self).linked(j) by {
                assert(q[j - 1] != q[i - 1]);
            }
            assert forall|j: int| 0 <= j < q.len() && j != i implies #[trigger] self.parked(j)
                == old(self).parked(j) by {
                assert(q[j] != q[i]);
            }
            assert(q.last() != prev);
            assert forall|j: int| 0 <= j < q.len() - 1 implies {
                let next = (#[trigger] self.nodes@[q[j] - 1]).next;
                next == 0 || next == q[j + 1]
            } by {
                if j != i - 1 {
                    assert(q[j] != q[i - 1]);
                }
            }
        }
    }

    /// The mutex with its value replaced.
    pub closed spec fn with_value(self, data: T) -> Self {
        McsMutex { data, ..self }
    }

    /// What the mutex guards, to its owner.
    pub fn deref_mut(&mut self, guard: &McsMutexGuard) -> (r: &mut T)
        requires
            old(self).wf(),
            old(self).order().len() > 0,
            guard.id() == old(self).order()[0],
        ensures
            *r == old(self).value(),
            *final(self) == old(self).with_value(*final(r)),
            final(self).value() == *final(r),
            final(self).wf(),
            final(self).order() == old(self).order(),
            final(self).has_room() == old(self).has_room(),
            forall|i: int| #[trigger] final(self).linked(i) == old(self).linked(i),
            forall|i: int| #[trigger] final(self).parked(i) == old(self).parked(i),
    {
        assert forall|d: T| #[trigger] self.with_value(d).wf() by {
            let m = self.with_value(d);
            assert forall|i: int|
                1 <= i < m.queue@.len() && m.linked(i) implies #[trigger] m.parked(i) is Some by {
                assert(self.linked(i));
                assert(self.parked(i) is Some);
            }
        }
        let ghost before = *self;
        let r = &mut self.data;
        assert(before.with_value(*final(r)).wf());
        r
    }

    /// One attempt of the owner to unlock. When nobody came after it the mutex
    /// is free; when the next node is linked its task is handed out to be
    /// woken and owns the mutex; otherwise the attempt is to be repeated, with
    /// a yield now and then.
    pub fn unlock(&mut self, guard: McsMutexGuard, spins: &mut u32) -> (r: UnlockStep<W>)
        requires
            old(self).wf(),
            old(self).order().len() > 0,
            guard.id() == old(self).order()[0],
        ensures
            final(self).wf(),
            final(self).value() == old(self).value(),
            match r {
                UnlockStep::Free => {
                    &&& old(self).order().len() == 1
                    &&& final(self).order() == Seq::<usize>::empty()
                    &&& final(self).has_room()
                    &&& *final(spins) == *old(spins)
                },
                UnlockStep::Wake(w, handed) => {
                    &&& old(self).order().len() > 1
                    &&& handed.id() == old(self).order()[1]
                    &&& old(self).linked(1)
                    &&& w.parked() == old(self).parked(1)
                    &&& w.parked() is Some
                    &&& final(self).order() == old(self).order().drop_first()
                    &&& final(self).has_room()
                    &&& *final(spins) == *old(spins)
                    &&& forall|i: int|
                        1 <= i < final(self).order().len() ==> #[trigger] final(self).linked(i)
                            == old(self).linked(i + 1)
                    &&& forall|i: int|
                        1 <= i < final(self).order().len() ==> #[trigger] final(self).parked(i)
                            == old(self).parked(i + 1)
                },
                UnlockStep::Again { guard: g, yield_first } => {
                    &&& old(self).order().len() > 1
                    &&& !old(self).linked(1)
                    &&& *final(self) == *old(self)
                    &&& g == guard
                    &&& *final(spins) == (*old(spins)).wrapping_add(1)
                    &&& yield_first == (*final(spins) % SPINS_PER_YIELD == 0)
                    &&& yield_first <==> *final(spins) % 64 == 0
                },
            },
            mcs_stepped(
                *old(self),
                *final(self),
                if r is Again {
                    McsStep::Stay
                } else {
                    McsStep::Go
                },
            ),
    {
        let node: usize = guard.node;
        let ghost q = self.queue@;
        if self.tail == node {
            assert(q.len() == 1) by {
                assert(q[q.len() - 1] == q[0]);
            }
            self.tail = 0;
            self.vacant.push(node);
            proof {
                self.queue@ = Seq::empty();
                assert(self.queue@ =~= q.drop_first());
            }
            return UnlockStep::Free;
        }
        let next: usize = self.nodes[node - 1].next;
        if next == 0 {
            *spins = (*spins).wrapping_add(1);
            let n: u32 = *spins;
            assert(n & 0x3F == n % 64) by (bit_vector);
            return UnlockStep::Again { guard, yield_first: *spins & 0x3F == 0 };
        }
        assert(next == q[1]);
        assert(self.linked(1));
        assert(self.parked(1) is Some);
        let mut slot = W::new_empty();
        std::mem::swap(&mut slot, &mut self.nodes[next - 1].suspended);
        self.vacant.push(node);
        proof {
            let rest = q.drop_first();
            self.queue@ = rest;
            assert(q.len() <= self.nodes.len() <= usize::MAX);
            assert forall|i: int| 0 <= i < rest.len() implies #[trigger] rest[i] == q[i + 1] by {
            }
            assert forall|i: int| 1 <= i < rest.len() implies #[trigger] self.linked(i) == old(
                self,
            ).linked(i + 1) by {
                assert(rest[i - 1] == q[i]);
            }
            assert forall|i: int| 1 <= i < rest.len() implies #[trigger] self.parked(i) == old(
                self,
            ).parked(i + 1) by {
                assert(rest[i] != q[1]);
            }
            assert forall|i: int| 0 <= i < rest.len() - 1 implies {
                let n = (#[trigger] self.nodes@[rest[i] - 1]).next;
                n == 0 || n == rest[i + 1]
            } by {
                assert(rest[i] == q[i + 1]);
                let n = old(self).nodes@[q[i + 1] - 1].next;
                assert(n == 0 || n == q[i + 2]);
            }
            assert(rest.last() == q.last());
            assert(rest.no_duplicates());
            assert forall|i: int, j: int|
                0 <= i < rest.len() && 0 <= j < self.vacant@.len() implies #[trigger] rest[i]
                != #[trigger] self.vacant@[j] by {
                assert(rest[i] == q[i + 1]);
                if j == self.vacant@.len() - 1 {
                    assert(self.vacant@[j] == q[0]);
                }
            }
            assert(self.vacant@.no_duplicates()) by {
                assert forall|i: int| 0 <= i < old(self).vacant@.len() implies #[trigger] old(
                    self,
                ).vacant@[i] != node by {
                    assert(q[0] != old(self).vacant@[i]);
                }
            }
        }
        UnlockStep::Wake(slot, McsHandover { node: next })
    }
}

/// What is done to the order: a node comes, the owner goes, or nothing.
pub enum McsStep {
    Come(usize),
    Go,
    Stay,
}

/// Whether a step turns the mutex `a` into `b`.
pub open spec fn mcs_stepped<W: StackfulOnlyResumableCore, T>(
    a: McsMutex<W, T>,
    b: McsMutex<W, T>,
    step: McsStep,
) -> bool {
    match step {
        McsStep::Come(node) => b.order() == a.order().push(node),
        McsStep::Go => a.order().len() > 0 && b.order() == a.order().drop_first(),
        McsStep::Stay => b.order() == a.order(),
    }
}

/// The nodes that came, in the order in which they came.
pub open spec fn came(steps: Seq<McsStep>) -> Seq<usize>
    decreases steps.len(),
{
    if steps.len() == 0 {
        Seq::empty()
    } else {
        match steps.last() {
            McsStep::Come(node) => came(steps.drop_last()).push(node),
            _ => came(steps.drop_last()),
        }
    }
}

/// How many went.
pub open spec fn went(steps: Seq<McsStep>) -> nat
    decreases steps.len(),
{
    if steps.len() == 0 {
        0
    } else {
        went(steps.drop_last()) + (if steps.last() is Go {
            1nat
        } else {
            0nat
        })
    }
}

/// The mutex is owned one after the other in the order in which tasks came:
/// the order always holds those who came, without as many of the first as
/// went. The first of the order is the owner.
pub proof fn law_mcs_is_fair<W: StackfulOnlyResumableCore, T>(
    states: Seq<McsMutex<W, T>>,
    steps: Seq<McsStep>,
)
    requires
        states.len() == steps.len() + 1,
        states[0].order() == Seq::<usize>::empty(),
        forall|i: int|
            0 <= i < steps.len() ==> #[trigger] mcs_stepped(states[i], states[i + 1], steps[i]),
    ensures
        went(steps) <= came(steps).len(),
        states[steps.len() as int].order() == came(steps).skip(went(steps) as int),
    decreases steps.len(),
{
    if steps.len() == 0 {
        assert(came(steps).skip(0) =~= Seq::<usize>::empty());
    } else {
        let n = steps.len() as int;
        let before = steps.drop_last();
        let earlier = states.take(n);
        assert forall|i: int| 0 <= i < before.len() implies #[trigger] mcs_stepped(
            earlier[i],
            earlier[i + 1],
            before[i],
        ) by {
            assert(mcs_stepped(states[i], states[i + 1], steps[i]));
        }
        law_mcs_is_fair(earlier, before);
        assert(mcs_stepped(states[n - 1], states[n - 1 + 1], steps[n - 1]));
        let k = went(before) as int;
        match steps.last() {
            McsStep::Come(node) => {
                assert(came(before).push(node).skip(k) =~= came(before).skip(k).push(node));
            },
            McsStep::Go => {
                assert(came(before).skip(k).drop_first() =~= came(before).skip(k + 1));
            },
            McsStep::Stay => {},
        }
    }
}

// ---------------------------------------------------------------------------
// McsCondvar
// ---------------------------------------------------------------------------

/// A condition variable for [`McsMutex`].
pub struct McsCondvar<W> {
    waiters: VecDeque<W>,
}

impl<W: StackfulOnlyResumableCore> McsCondvar<W> {
    /// Who waits for a notification, in the order in which they came.
    pub closed spec fn waiting(&self) -> Seq<usize> {
        barrier::parked_in(self.waiters@)
    }

    /// Every waiter is parked.
    pub closed spec fn wf(&self) -> bool {
        barrier::all_parked(self.waiters@)
    }

    /// A condition variable that nobody waits for.
    pub fn new() -> (r: Self)
        ensures
            r.wf(),
            r.waiting() == Seq::<usize>::empty(),
    {
        let r = McsCondvar { waiters: VecDeque::new() };
        assert(r.waiting() =~= Seq::<usize>::empty());
        r
    }

    /// Second half of a wait: the task that was left is parked. Only then does
    /// the caller unlock the mutex, with [`McsMutex::unlock`]; a task that is
    /// notified locks it again.
    pub fn wait(&mut self, c: SuspendedTaskToken)
        requires
            old(self).wf(),
            c.ptr() != 0,
        ensures
            final(self).wf(),
            final(self).waiting() == old(self).waiting().push(c.ptr()),
            mutex::condvar_stepped(
                old(self).waiting(),
                final(self).waiting(),
                CondvarStep::Wait(c.ptr()),
            ),
    {
        let ghost p = c.ptr();
        self.waiters.push_back(parked_slot(c));
        assert(self.waiting() =~= old(self).waiting().push(p));
    }

    /// Takes the first waiter, to wake it.
    pub fn notify_one(&mut self) -> (r: Option<W>)
        requires
            old(self).wf(),
        ensures
            final(self).wf(),
            match r {
                Some(w) => {
                    &&& old(self).waiting().len() > 0
                    &&& w.parked() == Some(old(self).waiting()[0])
                    &&& final(self).waiting() == old(self).waiting().drop_first()
                },
                None => old(self).waiting().len() == 0 && final(self).waiting() == old(
                    self,
                ).waiting(),
            },
            mutex::condvar_stepped(
                old(self).waiting(),
                final(self).waiting(),
                CondvarStep::NotifyOne,
            ),
    {
        match self.waiters.pop_front() {
            Some(w) => {
                assert(self.waiting() =~= old(self).waiting().drop_first());
                Some(w)
            },
            None => None,
        }
    }

    /// Takes all waiters, to wake them in the order in which they came.
    pub fn notify_all(&mut self) -> (r: Vec<W>)
        requires
            old(self).wf(),
        ensures
            final(self).wf(),
            final(self).waiting() == Seq::<usize>::empty(),
            barrier::all_parked(r@),
            barrier::parked_in(r@) == old(self).waiting(),
            r@.len() == old(self).waiting().len(),
            forall|i: int|
                0 <= i < r@.len() ==> (#[trigger] r@[i]).parked() == Some(old(self).waiting()[i]),
            mutex::condvar_stepped(
                old(self).waiting(),
                final(self).waiting(),
                CondvarStep::NotifyAll,
            ),
    {
        let r = drain_waiters(&mut self.waiters);
        assert(self.waiting() =~= Seq::<usize>::empty());
        r
    }
}

} // verus!
