//! Delegation: a lock whose waiters may leave their work to a consumer task.
//!
//! Whoever wants the lock joins a queue of positions; the first position holds
//! the lock. A waiter publishes its position only after it is parked. The
//! slot of a position holds the parked task when it wants the lock itself, and
//! is empty when it left work for the consumer.
use vstd::prelude::*;

use crate::interchange::PointerInterchangeable;
use crate::resumable::common::desc::SuspendedTaskToken;
use crate::resumable::stackful::suspended::StackfulOnlyResumableCore;

verus! {

/// The work that can be left for a consumer.
pub trait WorkItem: Sized {
    /// No work.
    spec fn initial() -> Self;

    /// No work.
    fn new_initial() -> (r: Self)
        ensures
            r == Self::initial(),
    ;
}

/// One position of the queue.
pub struct DelegatorNode<W, K> {
    /// The parked task, if it wants the lock itself.
    pub sth: W,
    /// The work that it left.
    pub work: K,
}

impl<W: StackfulOnlyResumableCore, K: WorkItem> DelegatorNode<W, K> {
    /// Whether nobody is parked and no work is left.
    pub open spec fn is_blank(&self) -> bool {
        self.sth.parked() is None && self.work == K::initial()
    }

    /// A blank position.
    pub fn new() -> (r: Self)
        ensures
            r.is_blank(),
    {
        DelegatorNode { sth: W::new_empty(), work: K::new_initial() }
    }
}

/// What can be said of a queue of positions.
pub trait SyncQueueModel<W: StackfulOnlyResumableCore, K: WorkItem>: Sized {
    /// How many positions are taken.
    spec fn len(&self) -> nat;

    /// How many positions there can be.
    spec fn capacity() -> nat;

    /// Whether the queue can be made.
    spec fn valid_config() -> bool;

    /// The name of a position.
    spec fn slot(&self, i: int) -> usize;

    /// Whether a position was published.
    spec fn ready(&self, i: int) -> bool;

    /// What is at a position.
    spec fn node(&self, i: int) -> DelegatorNode<W, K>;

    /// The queue's internal invariant.
    spec fn wf(&self) -> bool;
}

/// Whether `n` positions of `b` from `to` on are those of `a` from `from` on.
pub open spec fn same_positions<
    W: StackfulOnlyResumableCore,
    K: WorkItem,
    Q: SyncQueueModel<W, K>,
>(a: Q, b: Q, from: int, to: int, n: nat) -> bool {
    forall|i: int|
        #![trigger b.slot(i)]
        #![trigger b.ready(i)]
        #![trigger b.node(i)]
        to <= i < to + n ==> {
            &&& b.slot(i) == a.slot(i - to + from)
            &&& b.ready(i) == a.ready(i - to + from)
            &&& b.node(i) == a.node(i - to + from)
        }
}

/// The queue of positions, the holder of the lock first.
pub trait SyncQueue<W: StackfulOnlyResumableCore, K: WorkItem>: SyncQueueModel<W, K> {
    /// Positions have different names.
    proof fn slots_differ(&self, i: int, j: int)
        requires
            self.wf(),
            0 <= i < j < self.len(),
        ensures
            self.slot(i) != self.slot(j),
    ;

    /// A queue in which no position is taken.
    fn new_queue() -> (r: Self)
        requires
            Self::valid_config(),
        ensures
            r.wf(),
            r.len() == 0,
    ;

    /// Joins: takes the next position, which nobody is parked at. `None` when
    /// all are taken. The first to come has the lock at once; everyone else
    /// also learns the position before.
    fn start_lock(&mut self) -> (r: Option<(bool, Option<usize>, usize)>)
        requires
            old(self).wf(),
        ensures
            final(self).wf(),
            r is None == (old(self).len() >= Self::capacity()),
            r is None ==> *final(self) == *old(self),
            r matches Some((is_locked, prev, cur)) ==> {
                &&& is_locked == (old(self).len() == 0)
                &&& prev == (if is_locked {
                    None
                } else {
                    Some(old(self).slot(old(self).len() - 1))
                })
                &&& final(self).len() == old(self).len() + 1
                &&& cur == final(self).slot(old(self).len() as int)
                &&& !final(self).ready(old(self).len() as int)
                &&& final(self).node(old(self).len() as int).sth.parked() is None
                &&& same_positions(*old(self), *final(self), 0, 0, old(self).len())
            },
    ;

    /// What is at a position, to change it. Nobody unparked is published.
    fn node_mut(&mut self, slot: usize) -> (r: &mut DelegatorNode<W, K>)
        requires
            old(self).wf(),
            exists|i: int| 0 <= i < old(self).len() && #[trigger] old(self).slot(i) == slot,
        ensures
            forall|i: int|
                0 <= i < old(self).len() && #[trigger] old(self).slot(i) == slot ==> *r == old(
                    self,
                ).node(i) && final(self).node(i) == *final(r),
            forall|i: int|
                0 <= i < old(self).len() && #[trigger] old(self).slot(i) != slot
                    ==> final(self).node(i) == old(self).node(i),
            final(self).wf(),
            final(self).len() == old(self).len(),
            forall|i: int| #[trigger] final(self).slot(i) == old(self).slot(i),
            forall|i: int| #[trigger] final(self).ready(i) == old(self).ready(i),
    ;

    /// Publishes a position.
    fn set_next(&mut self, cur: usize)
        requires
            old(self).wf(),
            exists|i: int| 1 <= i < old(self).len() && #[trigger] old(self).slot(i) == cur,
        ensures
            final(self).wf(),
            final(self).len() == old(self).len(),
            forall|i: int| #[trigger] final(self).slot(i) == old(self).slot(i),
            forall|i: int| #[trigger] final(self).node(i) == old(self).node(i),
            forall|i: int|
                0 <= i < old(self).len() ==> #[trigger] final(self).ready(i) == (old(self).ready(i)
                    || old(self).slot(i) == cur),
    ;

    /// The position that holds the lock.
    fn get_head(&self) -> (r: usize)
        requires
            self.wf(),
            self.len() > 0,
        ensures
            r == self.slot(0),
    ;

    /// Whether the task of the position that holds the lock wants it itself.
    fn head_is_set(&self) -> (r: bool)
        requires
            self.wf(),
            self.len() > 0,
        ensures
            r == self.node(0).sth.parked() is Some,
    ;

    /// Leaves, if nobody came after: then no position is taken.
    fn try_unlock(&mut self) -> (r: bool)
        requires
            old(self).wf(),
            old(self).len() > 0,
            old(self).node(0).sth.parked() is None,
        ensures
            final(self).wf(),
            r == (old(self).len() == 1),
            r ==> final(self).len() == 0,
            !r ==> *final(self) == *old(self),
    ;

    /// Leaves to the position after, if it was published: then that one holds
    /// the lock.
    fn try_follow_head(&mut self) -> (r: Option<usize>)
        requires
            old(self).wf(),
            old(self).len() > 0,
        ensures
            final(self).wf(),
            r is Some == (old(self).len() > 1 && old(self).ready(1)),
            r is None ==> *final(self) == *old(self),
            r matches Some(next) ==> {
                &&& next == old(self).slot(1)
                &&& final(self).len() == old(self).len() - 1
                &&& final(self).slot(0) == next
                &&& final(self).node(0) == old(self).node(1)
                &&& same_positions(
                    *old(self),
                    *final(self),
                    2,
                    1,
                    (old(self).len() - 2) as nat,
                )
            },
    ;
}

/// The task that works off what others leave. Its methods are given by the
/// user of the delegator; what they do is up to them.
pub trait DelegatorConsumer<W: StackfulOnlyResumableCore>: Sized {
    /// The work that can be left.
    type Work: WorkItem;

    /// Whether the consumer has something of its own going on.
    spec fn active(&self) -> bool;

    /// Whether executing `work` may turn the consumer into `after` and the
    /// work into `work_after`, with this answer.
    spec fn executes_to(
        self,
        work: Self::Work,
        after: Self,
        work_after: Self::Work,
        done: bool,
        wake: Option<W>,
    ) -> bool;

    /// Whether a step of its own may turn the consumer into `after`, with this
    /// answer.
    spec fn progresses_to(self, after: Self, wake: Option<W>) -> bool;

    /// Whether the consumer has something of its own going on.
    fn is_active(&self) -> (r: bool)
        ensures
            r == self.active(),
    ;

    /// Executes work: whether it is done, and the task to wake.
    fn execute(&mut self, work: &mut Self::Work) -> (r: (bool, Option<W>))
        ensures
            old(self).executes_to(*old(work), *final(self), *final(work), r.0, r.1),
    ;

    /// Makes a step of its own: the task to wake.
    fn progress(&mut self) -> (r: Option<W>)
        ensures
            old(self).progresses_to(*final(self), r),
    ;
}

/// What joining the queue comes to.
#[derive(Clone, Copy, PartialEq, Eq, Structural, Debug)]
pub enum JoinStep {
    /// The caller has the lock.
    Locked,
    /// The caller has this position and parks.
    Enqueued { prev: usize, cur: usize },
    /// No position is free: yield and try again.
    Full,
}

/// What becomes of work that is run at once by `imm`, when the lock is free, or
/// else made by `del` and left for the consumer.
pub enum DelegationStep<Imm, Del> {
    /// It was run at once, and the lock was given up: this comes next.
    Ran(Result<UnlockAction, WaitAction>),
    /// It is to be left at this position, with
    /// [`Delegator::lock_or_delegate`].
    Leave { cur: usize, del: Del },
    /// No position is free: yield, join and try again.
    Retry { imm: Imm, del: Del },
}

/// What unlocking comes to.
#[derive(Clone, Copy, PartialEq, Eq, Structural, Debug)]
pub enum UnlockAction {
    /// Nobody came after: nothing is to be done.
    Unlocked,
    /// Park in the consumer's slot and go on with the task at this position,
    /// which has the lock.
    SwapWith(usize),
    /// Wake the task at this position, which has the lock.
    NotifyWaiter(usize),
    /// Wake the consumer, which has the lock.
    NotifyConsumer,
}

/// What unlocking by a task that then waits comes to.
#[derive(Clone, Copy, PartialEq, Eq, Structural, Debug)]
pub enum WaitAction {
    /// Park and go on with the task at this position, which has the lock.
    SwapWith(usize),
    /// Park and go on with the consumer, which has the lock.
    SwapWithConsumer,
    /// Park, and once parked unlock if nobody came after.
    ParkAndTryUnlock,
}

/// How a round of the consumer ends.
#[derive(Clone, Copy, PartialEq, Eq, Structural, Debug)]
pub enum ConsumeEnd {
    /// The next round follows.
    Continue,
    /// Park in the consumer's slot and go on with the task at this position,
    /// which has the lock.
    SwapWith(usize),
    /// Park in the consumer's slot, unless somebody came after.
    ParkIfUnlocked,
}

/// What a round of the consumer comes to: a task to wake at once, how the
/// round ends, and a task to wake after that.
pub struct ConsumeOutcome<W> {
    pub wake_first: Option<W>,
    pub end: ConsumeEnd,
    pub wake_last: Option<W>,
}

/// A lock whose waiters may leave their work to a consumer.
pub struct Delegator<W, C, Q> {
    pub queue: Q,
    pub consumer: C,
    /// Where the consumer parks.
    pub consumer_sth: W,
    /// Whether the work of the position that holds the lock is done.
    pub is_executed: bool,
    pub finished: bool,
    pub consumer_started: bool,
}

/// Whether the position after the holder can be given the lock.
pub open spec fn has_successor<
    W: StackfulOnlyResumableCore,
    K: WorkItem,
    Q: SyncQueueModel<W, K>,
>(q: Q) -> bool {
    q.len() > 1 && q.ready(1)
}

/// Whether `b` is `a` after the position after the holder was given the lock.
pub open spec fn followed<W: StackfulOnlyResumableCore, K: WorkItem, Q: SyncQueueModel<W, K>>(
    a: Q,
    b: Q,
) -> bool {
    &&& b.wf()
    &&& b.len() == a.len() - 1
    &&& b.slot(0) == a.slot(1)
    &&& b.node(0) == a.node(1)
    &&& same_positions(a, b, 2, 1, (a.len() - 2) as nat)
}

impl<W: StackfulOnlyResumableCore, C: DelegatorConsumer<W>, Q: SyncQueue<W, C::Work>> Delegator<
    W,
    C,
    Q,
> {
    /// A delegator that nobody has locked.
    pub fn new(consumer: C) -> (r: Self)
        requires
            Q::valid_config(),
        ensures
            r.queue.wf(),
            r.queue.len() == 0,
            r.consumer == consumer,
            r.consumer_sth.parked() is None,
            r.is_executed,
            !r.finished,
            !r.consumer_started,
    {
        Delegator {
            queue: Q::new_queue(),
            consumer,
            consumer_sth: W::new_empty(),
            is_executed: true,
            finished: false,
            consumer_started: false,
        }
    }

    /// A delegator whose consumer has the lock.
    pub fn start(consumer: C) -> (r: Self)
        requires
            Q::valid_config(),
            Q::capacity() > 0,
        ensures
            r.queue.wf(),
            r.queue.len() == 1,
            r.queue.node(0).sth.parked() is None,
            r.consumer == consumer,
            r.consumer_sth.parked() is None,
            r.is_executed,
            !r.finished,
            !r.consumer_started,
    {
        let mut del = Self::new(consumer);
        let _ = del.queue.start_lock();
        del
    }

    /// Whether the caller has to start the consumer: the first to ask has to.
    pub fn ensure_consumer_started(&mut self) -> (r: bool)
        ensures
            r == !old(self).consumer_started,
            *final(self) == (Delegator { consumer_started: true, ..*old(self) }),
            start_stepped(*old(self), *final(self), Some(r)),
    {
        if self.consumer_started {
            return false;
        }
        self.consumer_started = true;
        true
    }

    /// Whether joining the queue in this state comes to `step`: the lock is
    /// free exactly when nobody has a position.
    pub open spec fn join_gives(self, step: JoinStep) -> bool {
        &&& step is Locked == (self.queue.len() == 0 && Q::capacity() > 0)
        &&& step is Enqueued == (0 < self.queue.len() < Q::capacity())
        &&& step is Full == (self.queue.len() >= Q::capacity())
    }

    /// Joins the queue.
    pub fn join(&mut self) -> (r: JoinStep)
        requires
            old(self).queue.wf(),
        ensures
            old(self).join_gives(r),
            final(self).queue.wf(),
            *final(self) == (Delegator { queue: final(self).queue, ..*old(self) }),
            match r {
                JoinStep::Full => {
                    &&& old(self).queue.len() >= Q::capacity()
                    &&& *final(self) == *old(self)
                },
                JoinStep::Locked => {
                    &&& old(self).queue.len() == 0
                    &&& Q::capacity() > 0
                    &&& final(self).queue.len() == 1
                    &&& final(self).queue.node(0).sth.parked() is None
                },
                JoinStep::Enqueued { prev, cur } => {
                    let n = old(self).queue.len() as int;
                    &&& 0 < n < Q::capacity()
                    &&& prev == old(self).queue.slot(n - 1)
                    &&& final(self).queue.len() == n + 1
                    &&& cur == final(self).queue.slot(n)
                    &&& !final(self).queue.ready(n)
                    &&& final(self).queue.node(n).sth.parked() is None
                    &&& same_positions(old(self).queue, final(self).queue, 0, 0, n as nat)
                },
            },
    {
        match self.queue.start_lock() {
            None => JoinStep::Full,
            Some((_, None, _)) => JoinStep::Locked,
            Some((_, Some(prev), cur)) => JoinStep::Enqueued { prev, cur },
        }
    }

    /// Second half of waiting for the lock: the task that was left is parked
    /// at its position, and only then is the position published.
    pub fn lock_wait(&mut self, cur: usize, c: SuspendedTaskToken)
        requires
            old(self).queue.wf(),
            exists|i: int|
                1 <= i < old(self).queue.len() && #[trigger] old(self).queue.slot(i) == cur,
            c.ptr() != 0,
        ensures
            final(self).queue.wf(),
            *final(self) == (Delegator { queue: final(self).queue, ..*old(self) }),
            final(self).queue.len() == old(self).queue.len(),
            forall|i: int| #[trigger] final(self).queue.slot(i) == old(self).queue.slot(i),
            forall|i: int|
                0 <= i < old(self).queue.len() ==> if old(self).queue.slot(i) == cur {
                    &&& (#[trigger] final(self).queue.node(i)).sth.parked() == Some(c.ptr())
                    &&& final(self).queue.node(i).work == old(self).queue.node(i).work
                } else {
                    final(self).queue.node(i) == old(self).queue.node(i)
                },
            forall|i: int|
                0 <= i < old(self).queue.len() ==> #[trigger] final(self).queue.ready(i) == (old(
                    self,
                ).queue.ready(i) || old(self).queue.slot(i) == cur),
    {
        let ghost q0 = self.queue;
        let node = self.queue.node_mut(cur);
        node.sth.park(c);
        let ghost q1 = self.queue;
        proof {
            let i = choose|i: int| 1 <= i < q0.len() && #[trigger] q0.slot(i) == cur;
            assert(q1.slot(i) == cur);
        }
        self.queue.set_next(cur);
        assert forall|i: int| 0 <= i < q0.len() implies if q0.slot(i) == cur {
            &&& (#[trigger] self.queue.node(i)).sth.parked() == Some(c.ptr())
            &&& self.queue.node(i).work == q0.node(i).work
        } else {
            self.queue.node(i) == q0.node(i)
        } by {
            assert(self.queue.node(i) == q1.node(i));
            assert(q0.slot(i) == q1.slot(i));
        }
        assert forall|i: int| 0 <= i < q0.len() implies #[trigger] self.queue.ready(i) == (q0.ready(
            i,
        ) || q0.slot(i) == cur) by {
            assert(q1.ready(i) == q0.ready(i));
            assert(q1.slot(i) == q0.slot(i));
        }
    }

    /// Leaves work at a position that the caller has joined at.
    pub fn leave_work(&mut self, cur: usize, work: C::Work)
        requires
            old(self).queue.wf(),
            exists|i: int|
                1 <= i < old(self).queue.len() && #[trigger] old(self).queue.slot(i) == cur,
        ensures
            final(self).queue.wf(),
            *final(self) == (Delegator { queue: final(self).queue, ..*old(self) }),
            final(self).queue.len() == old(self).queue.len(),
            forall|i: int| #[trigger] final(self).queue.slot(i) == old(self).queue.slot(i),
            forall|i: int| #[trigger] final(self).queue.ready(i) == old(self).queue.ready(i),
            forall|i: int|
                0 <= i < old(self).queue.len() ==> if old(self).queue.slot(i) == cur {
                    (#[trigger] final(self).queue.node(i)) == (DelegatorNode {
                        work,
                        ..old(self).queue.node(i)
                    })
                } else {
                    final(self).queue.node(i) == old(self).queue.node(i)
                },
    {
        let ghost q0 = self.queue;
        let node = self.queue.node_mut(cur);
        node.work = work;
        let ghost q1 = self.queue;
        assert forall|i: int| 0 <= i < q0.len() implies if q0.slot(i) == cur {
            (#[trigger] self.queue.node(i)) == (DelegatorNode { work, ..q0.node(i) })
        } else {
            self.queue.node(i) == q0.node(i)
        } by {
            assert(q0.slot(i) == q1.slot(i));
        }
    }

    /// Second half of delegating: `del` makes the work of the task `c` that was
    /// left, which lies parked in it. The work is left at the task's position,
    /// and only then is the position published.
    pub fn lock_or_delegate<Del: FnOnce(SuspendedTaskToken) -> C::Work>(
        &mut self,
        cur: usize,
        c: SuspendedTaskToken,
        del: Del,
    )
        requires
            old(self).queue.wf(),
            exists|i: int|
                1 <= i < old(self).queue.len() && #[trigger] old(self).queue.slot(i) == cur,
            call_requires(del, (c,)),
        ensures
            final(self).queue.wf(),
            *final(self) == (Delegator { queue: final(self).queue, ..*old(self) }),
            final(self).queue.len() == old(self).queue.len(),
            forall|i: int| #[trigger] final(self).queue.slot(i) == old(self).queue.slot(i),
            exists|work: C::Work| #[trigger]
                call_ensures(del, (c,), work) && forall|i: int|
                    0 <= i < old(self).queue.len() ==> #[trigger] final(self).queue.node(i) == (
                    if old(self).queue.slot(i) == cur {
                        DelegatorNode { work, ..old(self).queue.node(i) }
                    } else {
                        old(self).queue.node(i)
                    }),
            forall|i: int|
                0 <= i < old(self).queue.len() ==> #[trigger] final(self).queue.ready(i) == (old(
                    self,
                ).queue.ready(i) || old(self).queue.slot(i) == cur),
    {
        let ghost q0 = self.queue;
        let work = del(c);
        let ghost made = work;
        self.leave_work(cur, work);
        let ghost q1 = self.queue;
        proof {
            let i = choose|i: int| 1 <= i < q0.len() && #[trigger] q0.slot(i) == cur;
            assert(q1.slot(i) == cur);
        }
        self.queue.set_next(cur);
        assert(call_ensures(del, (c,), made));
        assert forall|i: int| 0 <= i < q0.len() implies #[trigger] self.queue.node(i) == (
        if q0.slot(i) == cur {
            DelegatorNode { work: made, ..q0.node(i) }
        } else {
            q0.node(i)
        }) by {
            assert(self.queue.node(i) == q1.node(i));
        }
        assert forall|i: int| 0 <= i < q0.len() implies #[trigger] self.queue.ready(i) == (q0.ready(
            i,
        ) || q0.slot(i) == cur) by {
            assert(q1.ready(i) == q0.ready(i));
            assert(q1.slot(i) == q0.slot(i));
        }
    }

    /// What unlocking comes to. When the consumer has nothing of its own going
    /// on and nobody came after, nothing is left to do. Otherwise the position
    /// after is given the lock, if it was published: its own task when that
    /// wants the lock, the consumer when it left work. If it was not, the
    /// consumer keeps the lock.
    pub open spec fn unlock_action(self) -> UnlockAction {
        if !self.consumer.active() && self.queue.len() == 1 {
            UnlockAction::Unlocked
        } else if has_successor(self.queue) && self.queue.node(1).sth.parked() is Some {
            if self.consumer.active() {
                UnlockAction::NotifyWaiter(self.queue.slot(1))
            } else {
                UnlockAction::SwapWith(self.queue.slot(1))
            }
        } else {
            UnlockAction::NotifyConsumer
        }
    }

    /// Whether `b` is this delegator unlocked.
    pub open spec fn unlocked_to(self, b: Self) -> bool {
        &&& b.queue.wf()
        &&& b == (Delegator { queue: b.queue, is_executed: b.is_executed, ..self })
        &&& if !self.consumer.active() && self.queue.len() == 1 {
            b.queue.len() == 0 && b.is_executed
        } else if has_successor(self.queue) {
            followed(self.queue, b.queue) && !b.is_executed
        } else {
            b.queue == self.queue && b.is_executed
        }
    }

    /// What unlocking by a task that then waits comes to.
    pub open spec fn wait_action(self) -> WaitAction {
        if !has_successor(self.queue) {
            WaitAction::ParkAndTryUnlock
        } else if self.queue.node(1).sth.parked() is Some {
            WaitAction::SwapWith(self.queue.slot(1))
        } else {
            WaitAction::SwapWithConsumer
        }
    }

    /// Whether `b` is this delegator unlocked by a task that then waits.
    pub open spec fn waited_to(self, b: Self) -> bool {
        &&& b.queue.wf()
        &&& b == (Delegator { queue: b.queue, is_executed: b.is_executed, ..self })
        &&& if has_successor(self.queue) {
            followed(self.queue, b.queue) && !b.is_executed
        } else {
            b.queue == self.queue && b.is_executed
        }
    }

    /// Unlocks.
    pub fn unlock(&mut self) -> (r: UnlockAction)
        requires
            old(self).queue.wf(),
            old(self).queue.len() > 0,
            old(self).queue.node(0).sth.parked() is None,
        ensures
            r == old(self).unlock_action(),
            old(self).unlocked_to(*final(self)),
            old(self).queue.len() > 1 && old(self).queue.ready(1) ==> final(self).queue.len()
                == old(self).queue.len() - 1 && final(self).queue.slot(0) == old(
                self,
            ).queue.slot(1) && final(self).queue.node(0) == old(self).queue.node(1),
            r is Unlocked <==> final(self).queue.len() == 0,
    {
        self.is_executed = true;
        let is_active = self.consumer.is_active();
        if !is_active && self.queue.try_unlock() {
            return UnlockAction::Unlocked;
        }
        if let Some(next) = self.queue.try_follow_head() {
            self.is_executed = false;
            if self.queue.head_is_set() {
                if !is_active {
                    return UnlockAction::SwapWith(next);
                }
                return UnlockAction::NotifyWaiter(next);
            }
            return UnlockAction::NotifyConsumer;
        }
        UnlockAction::NotifyConsumer
    }

    /// Unlocks on behalf of a task that then waits.
    pub fn unlock_and_wait(&mut self) -> (r: WaitAction)
        requires
            old(self).queue.wf(),
            old(self).queue.len() > 0,
        ensures
            r == old(self).wait_action(),
            old(self).waited_to(*final(self)),
            r is ParkAndTryUnlock <==> !(old(self).queue.len() > 1 && old(self).queue.ready(1)),
            old(self).queue.len() > 1 && old(self).queue.ready(1) ==> {
                &&& final(self).queue.len() == old(self).queue.len() - 1
                &&& final(self).queue.slot(0) == old(self).queue.slot(1)
                &&& final(self).queue.node(0) == old(self).queue.node(1)
                &&& !final(self).is_executed
                &&& r == (if old(self).queue.node(1).sth.parked() is Some {
                    WaitAction::SwapWith(old(self).queue.slot(1))
                } else {
                    WaitAction::SwapWithConsumer
                })
            },
    {
        self.is_executed = true;
        if let Some(next) = self.queue.try_follow_head() {
            self.is_executed = false;
            if self.queue.head_is_set() {
                return WaitAction::SwapWith(next);
            }
            return WaitAction::SwapWithConsumer;
        }
        WaitAction::ParkAndTryUnlock
    }

    /// Unlocks, once parked, if nobody came after.
    pub fn try_unlock_parked(&mut self) -> (r: bool)
        requires
            old(self).queue.wf(),
            old(self).queue.len() > 0,
            old(self).queue.node(0).sth.parked() is None,
        ensures
            final(self).queue.wf(),
            *final(self) == (Delegator { queue: final(self).queue, ..*old(self) }),
            r == (old(self).queue.len() == 1),
            r ==> final(self).queue.len() == 0,
            !r ==> *final(self) == *old(self),
    {
        self.queue.try_unlock()
    }

    /// Whether `b` is this delegator after a task that had the lock gave it up,
    /// as `next` says: it waits then, or goes on.
    pub open spec fn given_up(
        self,
        b: Self,
        waits: bool,
        next: Result<UnlockAction, WaitAction>,
    ) -> bool {
        if waits {
            next == Err::<UnlockAction, WaitAction>(self.wait_action()) && self.waited_to(b)
        } else {
            next == Ok::<UnlockAction, WaitAction>(self.unlock_action()) && self.unlocked_to(b)
        }
    }

    /// Runs work at once or leaves it, by a task whose joining came to `joined`.
    /// Exactly one of the two functions is called, and once: a task that has the
    /// lock runs `imm` on the consumer, which says whether the work is done and
    /// whether the task waits, and gives the lock up. Any other task is handed
    /// `del` back, for its position; or both, when it found no position.
    pub fn execute_or_delegate<Imm: FnOnce(&mut C) -> (bool, bool), Del>(
        &mut self,
        joined: JoinStep,
        imm: Imm,
        del: Del,
    ) -> (r: DelegationStep<Imm, Del>)
        requires
            old(self).queue.wf(),
            joined is Locked ==> {
                &&& old(self).queue.len() > 0
                &&& old(self).queue.node(0).sth.parked() is None
                &&& forall|c: &mut C|
                    *c == old(self).consumer ==> #[trigger] call_requires(imm, (c,))
            },
        ensures
            match joined {
                JoinStep::Locked => {
                    &&& r matches DelegationStep::Ran(next)
                    &&& exists|c: &mut C, is_done: bool, waits: bool| #[trigger]
                        call_ensures(imm, (c,), (is_done, waits)) && *c == old(self).consumer
                            && (Delegator { consumer: *final(c), ..*old(self) }).given_up(
                            *final(self),
                            waits,
                            next,
                        )
                },
                JoinStep::Enqueued { prev: _, cur } => {
                    &&& r == DelegationStep::<Imm, Del>::Leave { cur, del }
                    &&& *final(self) == *old(self)
                },
                JoinStep::Full => {
                    &&& r == DelegationStep::<Imm, Del>::Retry { imm, del }
                    &&& *final(self) == *old(self)
                },
            },
    {
        match joined {
            JoinStep::Locked => {
                let (is_done, waits) = imm(&mut self.consumer);
                self.is_executed = is_done;
                let next = if waits {
                    Err(self.unlock_and_wait())
                } else {
                    Ok(self.unlock())
                };
                DelegationStep::Ran(next)
            },
            JoinStep::Enqueued { prev: _, cur } => DelegationStep::Leave { cur, del },
            JoinStep::Full => DelegationStep::Retry { imm, del },
        }
    }

    /// Ends the delegator, by a task that has the lock: the consumer will
    /// leave its loop. Also says whether the consumer has to be woken for it.
    pub fn stop(&mut self) -> (r: (UnlockAction, bool))
        requires
            old(self).queue.wf(),
            old(self).queue.len() > 0,
            old(self).queue.node(0).sth.parked() is None,
        ensures
            r.0 == old(self).unlock_action(),
            r.1 == !old(self).consumer.active(),
            final(self).finished,
            (Delegator { finished: true, ..*old(self) }).unlocked_to(*final(self)),
    {
        self.finished = true;
        let is_active = self.consumer.is_active();
        let action = self.unlock();
        (action, !is_active)
    }

    /// Whether the consumer goes on with another round.
    pub fn consumer_loop(&self) -> (r: bool)
        ensures
            r == !self.finished,
    {
        !self.finished
    }

    /// Whether a round of the consumer goes on to the position after.
    pub open spec fn round_follows(self) -> bool {
        self.is_executed && has_successor(self.queue)
    }

    /// The position that a round of the consumer works on.
    pub open spec fn round_node(self) -> DelegatorNode<W, C::Work> {
        if self.round_follows() {
            self.queue.node(1)
        } else {
            self.queue.node(0)
        }
    }

    /// The name of that position.
    pub open spec fn round_slot(self) -> usize {
        if self.round_follows() {
            self.queue.slot(1)
        } else {
            self.queue.slot(0)
        }
    }

    /// Whether a round of the consumer has work that is not done.
    pub open spec fn round_has_work(self) -> bool {
        !self.is_executed || self.round_follows()
    }

    /// Whether `b` has the queue of this delegator, with the lock moved on if
    /// the round does so, and `work` at the position it worked on.
    pub open spec fn round_queue(self, b: Self, work: C::Work) -> bool {
        &&& b.queue.wf()
        &&& b.queue.len() == self.queue.len() - (if self.round_follows() {
            1int
        } else {
            0int
        })
        &&& b.queue.slot(0) == self.round_slot()
        &&& b.queue.node(0) == (DelegatorNode { work, ..self.round_node() })
        &&& if self.round_follows() {
            same_positions(self.queue, b.queue, 2, 1, (self.queue.len() - 2) as nat)
        } else {
            same_positions(self.queue, b.queue, 1, 1, (self.queue.len() - 1) as nat)
        }
    }

    /// One round of the consumer, which has the lock. It goes on to the
    /// position after when the work at hand is done. A task that wants the
    /// lock itself gets it. Work that was left is executed; if that did it, the
    /// round is over. Otherwise the consumer makes a step of its own, if it was
    /// active when the round began; and once nothing is left to do it parks,
    /// unless somebody came after.
    pub fn consume(&mut self) -> (r: ConsumeOutcome<W>)
        requires
            old(self).queue.wf(),
            old(self).queue.len() > 0,
        ensures
            final(self).finished == old(self).finished,
            final(self).consumer_started == old(self).consumer_started,
            final(self).consumer_sth == old(self).consumer_sth,
            if old(self).round_has_work() && old(self).round_node().sth.parked() is Some {
                &&& r.end == ConsumeEnd::SwapWith(old(self).round_slot())
                &&& r.wake_first is None
                &&& r.wake_last is None
                &&& final(self).consumer == old(self).consumer
                &&& final(self).is_executed == old(self).is_executed
                &&& old(self).round_queue(*final(self), old(self).round_node().work)
            } else if old(self).round_has_work() {
                exists|c: C, w: C::Work, done: bool, wake: Option<W>| #[trigger]
                    old(self).consumer.executes_to(old(self).round_node().work, c, w, done, wake)
                        && old(self).round_queue(*final(self), w) && if done {
                        &&& final(self).consumer == c
                        &&& final(self).is_executed
                        &&& r.wake_first == wake
                        &&& r.wake_last is None
                        &&& r.end == ConsumeEnd::Continue
                    } else {
                        &&& !final(self).is_executed
                        &&& r.end == ConsumeEnd::Continue
                        &&& after_progress(
                            old(self).consumer.active(),
                            c,
                            final(self).consumer,
                            wake,
                            r.wake_first,
                            r.wake_last,
                        )
                    }
            } else {
                &&& final(self).is_executed
                &&& final(self).queue == old(self).queue
                &&& after_progress(
                    old(self).consumer.active(),
                    old(self).consumer,
                    final(self).consumer,
                    None,
                    r.wake_first,
                    r.wake_last,
                )
                &&& r.end == (if final(self).consumer.active() {
                    ConsumeEnd::Continue
                } else {
                    ConsumeEnd::ParkIfUnlocked
                })
            },
    {
        let ghost d0 = *self;
        let mut is_executed = self.is_executed;
        let mut head: usize = self.queue.get_head();
        if is_executed {
            if let Some(next) = self.queue.try_follow_head() {
                is_executed = false;
                head = next;
            }
        }
        let do_progress = self.consumer.is_active();
        let mut awake: Option<W> = None;
        let ghost q1 = self.queue;
        assert(q1.slot(0) == head);
        assert(is_executed == !d0.round_has_work());
        if !is_executed {
            if self.queue.head_is_set() {
                assert(d0.round_queue(*self, d0.round_node().work));
                return ConsumeOutcome {
                    wake_first: None,
                    end: ConsumeEnd::SwapWith(head),
                    wake_last: None,
                };
            }
            let node = self.queue.node_mut(head);
            let (done, wake) = self.consumer.execute(&mut node.work);
            proof {
                assert forall|i: int| 1 <= i < q1.len() implies q1.slot(i) != head by {
                    q1.slots_differ(0, i);
                }
                assert(self.queue.slot(0) == q1.slot(0));
                assert(d0.round_queue(*self, self.queue.node(0).work));
                assert(d0.consumer.executes_to(
                    d0.round_node().work,
                    self.consumer,
                    self.queue.node(0).work,
                    done,
                    wake,
                ));
            }
            is_executed = done;
            if is_executed {
                self.is_executed = true;
                return ConsumeOutcome {
                    wake_first: wake,
                    end: ConsumeEnd::Continue,
                    wake_last: None,
                };
            }
            awake = wake;
        }
        let mut first: Option<W> = None;
        if do_progress {
            if let Some(sth) = self.consumer.progress() {
                first = awake;
                awake = Some(sth);
            }
        }
        self.is_executed = is_executed;
        let is_active = self.consumer.is_active();
        let end = if !is_active && is_executed {
            ConsumeEnd::ParkIfUnlocked
        } else {
            ConsumeEnd::Continue
        };
        ConsumeOutcome { wake_first: first, end, wake_last: awake }
    }
}

/// Whether the consumer `before` came to `after` and these tasks are to be
/// woken, when it makes a step of its own only if it `steps`: a task that the
/// step wakes is woken last, and one that was already to be woken comes first
/// then.
pub open spec fn after_progress<W: StackfulOnlyResumableCore, C: DelegatorConsumer<W>>(
    steps: bool,
    before: C,
    after: C,
    pending: Option<W>,
    first: Option<W>,
    last: Option<W>,
) -> bool {
    if steps {
        exists|wake: Option<W>| #[trigger]
            before.progresses_to(after, wake) && if wake is Some {
                first == pending && last == wake
            } else {
                first is None && last == pending
            }
    } else {
        after == before && first is None && last == pending
    }
}

/// Positions are served in the order in which they were taken: each time the
/// lock moves on, every position that waits comes one place nearer, with its
/// task and its work, until it holds the lock.
pub proof fn law_positions_are_served_in_order<
    W: StackfulOnlyResumableCore,
    K: WorkItem,
    Q: SyncQueueModel<W, K>,
>(states: Seq<Q>, i: int)
    requires
        states.len() > 0,
        forall|k: int|
            0 <= k < states.len() - 1 ==> #[trigger] followed(states[k], states[k + 1]),
        states.len() - 1 <= i < states[0].len(),
    ensures
        ({
            let last = states[states.len() - 1];
            let k = states.len() - 1;
            &&& last.len() == states[0].len() - k
            &&& last.slot(i - k) == states[0].slot(i)
            &&& last.node(i - k) == states[0].node(i)
            &&& i > k ==> last.ready(i - k) == states[0].ready(i)
        }),
    decreases states.len(),
{
    let k = states.len() - 1;
    if k > 0 {
        let before = states.drop_last();
        assert forall|j: int| 0 <= j < before.len() - 1 implies #[trigger] followed(
            before[j],
            before[j + 1],
        ) by {
            assert(followed(states[j], states[j + 1]));
        }
        law_positions_are_served_in_order(before, i);
        let a = states[k - 1];
        let b = states[k];
        assert(followed(states[k - 1], states[k - 1 + 1]));
        assert(b.slot(i - k) == a.slot(i - k + 1));
    }
}

/// How often [`Delegator::execute_or_delegate`] calls the function that runs
/// the work at once, and how often the function that makes the work to leave is
/// then called for the position, after joining came to `step`.
pub open spec fn calls_after(step: JoinStep) -> (nat, nat) {
    match step {
        JoinStep::Locked => (1, 0),
        JoinStep::Enqueued { prev: _, cur: _ } => (0, 1),
        JoinStep::Full => (0, 0),
    }
}

/// How often the two functions are called in a row of attempts.
pub open spec fn calls_in(steps: Seq<JoinStep>) -> (nat, nat)
    decreases steps.len(),
{
    if steps.len() == 0 {
        (0, 0)
    } else {
        let before = calls_in(steps.drop_last());
        let last = calls_after(steps.last());
        (before.0 + last.0, before.1 + last.1)
    }
}

/// Work is done once. A task joins until there is a position for it; in all
/// these attempts exactly one of its two functions is called, and that one once:
/// the one that runs the work at once if nobody had a position when it got its
/// own, and otherwise the one that makes the work to leave.
pub proof fn law_one_function_is_called_once<
    W: StackfulOnlyResumableCore,
    C: DelegatorConsumer<W>,
    Q: SyncQueue<W, C::Work>,
>(states: Seq<Delegator<W, C, Q>>, steps: Seq<JoinStep>)
    requires
        steps.len() > 0,
        states.len() == steps.len(),
        forall|i: int| 0 <= i < steps.len() ==> (#[trigger] states[i]).join_gives(steps[i]),
        forall|i: int| 0 <= i < steps.len() - 1 ==> #[trigger] steps[i] is Full,
        !(steps.last() is Full),
    ensures
        calls_in(steps) == (if states.last().queue.len() == 0 {
            (1nat, 0nat)
        } else {
            (0nat, 1nat)
        }),
{
    assert(states.last().join_gives(steps.last()));
    lemma_full_calls_nothing(steps.drop_last());
}

/// An attempt that finds no position calls neither function.
proof fn lemma_full_calls_nothing(steps: Seq<JoinStep>)
    requires
        forall|i: int| 0 <= i < steps.len() ==> #[trigger] steps[i] is Full,
    ensures
        calls_in(steps) == (0nat, 0nat),
    decreases steps.len(),
{
    if steps.len() > 0 {
        lemma_full_calls_nothing(steps.drop_last());
    }
}

/// Whether one step turns the delegator `a` into `b`, where `asked` is what
/// [`Delegator::ensure_consumer_started`] answered, if it was called: any other
/// step leaves alone whether the consumer is started.
pub open spec fn start_stepped<W, C, Q>(
    a: Delegator<W, C, Q>,
    b: Delegator<W, C, Q>,
    asked: Option<bool>,
) -> bool {
    match asked {
        Some(starts) => starts == !a.consumer_started && b.consumer_started,
        None => b.consumer_started == a.consumer_started,
    }
}

/// One consumer is started: however often it is asked for, the first who asks
/// starts it, and nobody else does.
pub proof fn law_one_consumer_is_started<W, C, Q>(
    states: Seq<Delegator<W, C, Q>>,
    asked: Seq<Option<bool>>,
    i: int,
)
    requires
        states.len() == asked.len() + 1,
        !states[0].consumer_started,
        forall|k: int|
            0 <= k < asked.len() ==> #[trigger] start_stepped(states[k], states[k + 1], asked[k]),
        0 <= i < asked.len(),
    ensures
        asked[i] == Some(true) <==> asked[i] is Some && forall|k: int|
            0 <= k < i ==> #[trigger] asked[k] is None,
{
    lemma_started_once_asked(states, asked, i);
    assert(start_stepped(states[i], states[i + 1], asked[i]));
}

/// The consumer is started exactly when it has been asked for.
proof fn lemma_started_once_asked<W, C, Q>(
    states: Seq<Delegator<W, C, Q>>,
    asked: Seq<Option<bool>>,
    i: int,
)
    requires
        states.len() == asked.len() + 1,
        !states[0].consumer_started,
        forall|k: int|
            0 <= k < asked.len() ==> #[trigger] start_stepped(states[k], states[k + 1], asked[k]),
        0 <= i <= asked.len(),
    ensures
        !states[i].consumer_started <==> forall|k: int|
            0 <= k < i ==> #[trigger] asked[k] is None,
    decreases i,
{
    if i > 0 {
        lemma_started_once_asked(states, asked, i - 1);
        assert(start_stepped(states[i - 1], states[i - 1 + 1], asked[i - 1]));
        if states[i].consumer_started && !states[i - 1].consumer_started {
            assert(asked[i - 1] is Some);
        }
    }
}

/// When the lock moves on it moves by one position: whoever came after the holder
/// holds it, with the task and the work that were there, and everybody behind
/// comes one place nearer, as they were.
pub proof fn law_lock_moves_on_by_one<
    W: StackfulOnlyResumableCore,
    K: WorkItem,
    Q: SyncQueueModel<W, K>,
>(a: Q, b: Q, i: int)
    requires
        followed(a, b),
        a.len() > 1,
    ensures
        b.wf(),
        b.len() == a.len() - 1,
        0 <= i < b.len() ==> b.slot(i) == a.slot(i + 1),
        0 <= i < b.len() ==> b.node(i) == a.node(i + 1),
        1 <= i < b.len() ==> b.ready(i) == a.ready(i + 1),
        has_successor(a) <==> a.len() > 1 && a.ready(1),
{
    if 1 <= i < b.len() {
        assert(b.slot(i) == a.slot(i - 1 + 2));
    }
}

/// A holder that waits leaves nobody behind. When the position after it was
/// published the lock moves on to that position, and the holder goes on with the
/// task that is parked there, or with the consumer when work was left there. Only
/// when nobody was published does it keep the lock until it is parked.
pub proof fn law_waiting_holder_leaves_nobody_behind<
    W: StackfulOnlyResumableCore,
    C: DelegatorConsumer<W>,
    Q: SyncQueue<W, C::Work>,
>(a: Delegator<W, C, Q>, b: Delegator<W, C, Q>, i: int)
    requires
        a.queue.wf(),
        a.queue.len() > 0,
        a.waited_to(b),
    ensures
        a.queue.len() > 1 && a.queue.ready(1) ==> {
            &&& b.queue.len() == a.queue.len() - 1
            &&& 0 <= i < b.queue.len() ==> b.queue.slot(i) == a.queue.slot(i + 1)
                && b.queue.node(i) == a.queue.node(i + 1)
            &&& 1 <= i < b.queue.len() ==> b.queue.ready(i) == a.queue.ready(i + 1)
            &&& !b.is_executed
            &&& a.queue.node(1).sth.parked() is Some ==> a.wait_action() == WaitAction::SwapWith(
                a.queue.slot(1),
            )
            &&& a.queue.node(1).sth.parked() is None ==> a.wait_action()
                == WaitAction::SwapWithConsumer
        },
        !(a.queue.len() > 1 && a.queue.ready(1)) ==> {
            &&& a.wait_action() == WaitAction::ParkAndTryUnlock
            &&& b.queue == a.queue
            &&& b.is_executed
        },
        b.queue.wf(),
        b == (Delegator { queue: b.queue, is_executed: b.is_executed, ..a }),
{
    if has_successor(a.queue) {
        law_lock_moves_on_by_one(a.queue, b.queue, i);
    }
}

/// Who gets the lock when it is unlocked. It is free only when nobody else has a
/// position and the consumer has nothing of its own going on. Otherwise it moves
/// on to the next position, if that was published: its task is gone on with, or
/// woken when the consumer is busy; work that was left there is for the consumer.
/// And when nobody was published the consumer keeps it.
pub proof fn law_unlock_hands_the_lock_on<
    W: StackfulOnlyResumableCore,
    C: DelegatorConsumer<W>,
    Q: SyncQueue<W, C::Work>,
>(a: Delegator<W, C, Q>, b: Delegator<W, C, Q>, i: int)
    requires
        a.queue.wf(),
        a.queue.len() > 0,
        a.unlocked_to(b),
    ensures
        ({
            let idle = !a.consumer.active();
            let alone = a.queue.len() == 1;
            let next = a.queue.len() > 1 && a.queue.ready(1);
            &&& idle && alone ==> a.unlock_action() == UnlockAction::Unlocked && b.queue.len() == 0
                && b.is_executed
            &&& next ==> {
                &&& b.queue.len() == a.queue.len() - 1
                &&& 0 <= i < b.queue.len() ==> b.queue.slot(i) == a.queue.slot(i + 1)
                    && b.queue.node(i) == a.queue.node(i + 1)
                &&& 1 <= i < b.queue.len() ==> b.queue.ready(i) == a.queue.ready(i + 1)
                &&& !b.is_executed
                &&& a.unlock_action() == (if a.queue.node(1).sth.parked() is None {
                    UnlockAction::NotifyConsumer
                } else if idle {
                    UnlockAction::SwapWith(a.queue.slot(1))
                } else {
                    UnlockAction::NotifyWaiter(a.queue.slot(1))
                })
            }
            &&& !next && !(idle && alone) ==> a.unlock_action() == UnlockAction::NotifyConsumer
                && b.queue == a.queue && b.is_executed
        }),
        b.queue.wf(),
        b == (Delegator { queue: b.queue, is_executed: b.is_executed, ..a }),
{
    if has_successor(a.queue) && b.queue.len() > 0 {
        law_lock_moves_on_by_one(a.queue, b.queue, i);
    }
}

/// A task that ran its work under the lock gives the lock up in one of two ways,
/// as the work asked for: it waits, or it goes on.
pub proof fn law_lock_is_given_up_as_asked<
    W: StackfulOnlyResumableCore,
    C: DelegatorConsumer<W>,
    Q: SyncQueue<W, C::Work>,
>(
    a: Delegator<W, C, Q>,
    b: Delegator<W, C, Q>,
    waits: bool,
    next: Result<UnlockAction, WaitAction>,
)
    requires
        a.given_up(b, waits, next),
    ensures
        next is Err <==> waits,
        waits ==> a.waited_to(b) && next->Err_0 == a.wait_action(),
        !waits ==> a.unlocked_to(b) && next->Ok_0 == a.unlock_action(),
{
}

/// What a round of the consumer works on: the position that holds the lock, while
/// its work is not done; the position after it, once that was published and the
/// work is done; and otherwise nothing. The round changes only the work at that
/// position, and the lock moves on by at most one.
pub proof fn law_consumer_works_in_order<
    W: StackfulOnlyResumableCore,
    C: DelegatorConsumer<W>,
    Q: SyncQueue<W, C::Work>,
>(a: Delegator<W, C, Q>, b: Delegator<W, C, Q>, work: C::Work, i: int)
    requires
        a.queue.wf(),
        a.queue.len() > 0,
    ensures
        ({
            let next = a.is_executed && a.queue.len() > 1 && a.queue.ready(1);
            let at = if next {
                1int
            } else {
                0int
            };
            &&& a.round_has_work() <==> !a.is_executed || next
            &&& a.round_slot() == a.queue.slot(at)
            &&& a.round_node() == a.queue.node(at)
            &&& a.round_queue(b, work) ==> {
                &&& b.queue.wf()
                &&& b.queue.len() == a.queue.len() - at
                &&& b.queue.slot(0) == a.queue.slot(at)
                &&& b.queue.node(0).work == work
                &&& b.queue.node(0).sth == a.queue.node(at).sth
                &&& 1 <= i < b.queue.len() ==> b.queue.slot(i) == a.queue.slot(i + at)
                    && b.queue.node(i) == a.queue.node(i + at) && b.queue.ready(i)
                    == a.queue.ready(i + at)
            }
        }),
{
    if a.round_queue(b, work) && 1 <= i < b.queue.len() {
        if a.round_follows() {
            assert(b.queue.slot(i) == a.queue.slot(i - 1 + 2));
        } else {
            assert(b.queue.slot(i) == a.queue.slot(i - 1 + 1));
        }
    }
}

/// A consumer that is not busy makes no step of its own, and whoever was to be
/// woken is woken last. A task that its own step wakes is woken after the one
/// that was already to be woken, and nobody is forgotten.
pub proof fn law_consumer_forgets_nobody<
    W: StackfulOnlyResumableCore,
    C: DelegatorConsumer<W>,
>(
    steps: bool,
    before: C,
    after: C,
    pending: Option<W>,
    first: Option<W>,
    last: Option<W>,
)
    requires
        after_progress(steps, before, after, pending, first, last),
    ensures
        !steps ==> after == before && first is None && last == pending,
        pending is Some ==> first == pending || last == pending,
        steps ==> exists|wake: Option<W>| #[trigger]
            before.progresses_to(after, wake) && (wake is Some ==> first == pending && last
                == wake) && (wake is None ==> first is None && last == pending),
{
}

/// Unlocking never leaves waiters behind: while anybody else has a position,
/// it hands the lock to the next of them or calls for the consumer, and it
/// lets go of the lock only when nobody else is there.
pub proof fn law_unlock_leaves_nobody_behind<
    W: StackfulOnlyResumableCore,
    C: DelegatorConsumer<W>,
    Q: SyncQueue<W, C::Work>,
>(a: Delegator<W, C, Q>, b: Delegator<W, C, Q>)
    requires
        a.queue.wf(),
        a.queue.len() > 0,
        a.unlocked_to(b),
    ensures
        a.unlock_action() is Unlocked ==> a.queue.len() == 1 && b.queue.len() == 0,
        a.queue.len() > 1 ==> b.queue.len() >= a.queue.len() - 1 && !(
        a.unlock_action() is Unlocked),
{
}

/// Positions that stay the same keep their names, whether they were published,
/// who is parked at them and what work was left there, one by one; at a blank one
/// nobody is parked and there is no work.
pub proof fn law_positions_are_kept_whole<
    W: StackfulOnlyResumableCore,
    K: WorkItem,
    Q: SyncQueueModel<W, K>,
>(a: Q, b: Q, from: int, to: int, n: nat, k: int, node: DelegatorNode<W, K>)
    requires
        same_positions(a, b, from, to, n),
        0 <= k < n,
    ensures
        b.slot(to + k) == a.slot(from + k),
        b.ready(to + k) == a.ready(from + k),
        b.node(to + k).sth == a.node(from + k).sth,
        b.node(to + k).work == a.node(from + k).work,
        node.is_blank() <==> node.sth.parked() is None && node.work == K::initial(),
{
    assert(b.slot(to + k) == a.slot(to + k - to + from));
}

} // verus!
