//! Worker run queues.
//!
//! A queue has an owner end, where its worker pushes and pops, and a steal
//! end, from which other workers take. What is deferred runs after everything
//! that is queued. A queue holds the addresses that stand for its items, and
//! each operation is one atomic step of it.
use core::marker::PhantomData;
use std::collections::VecDeque;

use vstd::prelude::*;

use crate::interchange::PointerInterchangeable;

verus! {

/// The outcome of a steal attempt.
#[derive(Debug)]
pub enum Steal<T> {
    /// There was nothing to take.
    Empty,
    /// An item was taken.
    Success(T),
    /// There is an item, but it could not be taken this time.
    Retry,
}

/// The address of an optional item.
pub open spec fn opt_ptr<T: PointerInterchangeable>(v: Option<T>) -> Option<usize> {
    match v {
        Some(t) => Some(t.ptr()),
        None => None,
    }
}

/// The first item of a sequence, if there is one.
pub open spec fn first_of(s: Seq<usize>) -> Option<usize> {
    if s.len() > 0 {
        Some(s[0])
    } else {
        None
    }
}

/// A sequence without its first item, if there is one.
pub open spec fn rest_of(s: Seq<usize>) -> Seq<usize> {
    if s.len() > 0 {
        s.drop_first()
    } else {
        s
    }
}

/// A run queue.
pub trait WorkerRunQueue<T: PointerInterchangeable>: Sized {
    /// What tells two states of the queue apart: what it holds, and how.
    type Contents;

    /// What the queue holds, and how.
    spec fn contents(&self) -> Self::Contents;

    /// The contents of an empty queue.
    spec fn no_contents() -> Self::Contents;

    /// The contents once `v` was pushed.
    spec fn after_push(c: Self::Contents, v: usize) -> Self::Contents;

    /// The contents once `v` was deferred.
    spec fn after_defer(c: Self::Contents, v: usize) -> Self::Contents;

    /// The contents once the next item, if there is one, was popped.
    spec fn after_pop(c: Self::Contents) -> Self::Contents;

    /// The contents once an item, if there is one, was stolen.
    spec fn after_steal(c: Self::Contents) -> Self::Contents;

    /// The queued items in the order in which the owner pops them.
    spec fn order(&self) -> Seq<usize>;

    /// The place in that order of the item that a steal takes.
    spec fn steal_at(&self) -> int;

    /// Whether a steal may fail although there is an item.
    spec fn may_retry(&self) -> bool;

    /// The queue's internal invariant.
    spec fn wf(&self) -> bool;

    /// The steal end points at an item whenever there is one.
    proof fn steal_at_in_range(&self)
        requires
            self.wf(),
            self.order().len() > 0,
        ensures
            0 <= self.steal_at() < self.order().len(),
    ;

    /// An empty queue.
    fn new_queue() -> (r: Self)
        ensures
            r.wf(),
            r.contents() == Self::no_contents(),
            r.order() == Seq::<usize>::empty(),
    ;

    /// Makes `v` the next item to pop. A steal takes it only when there is
    /// nothing else.
    fn push(&mut self, v: T)
        requires
            old(self).wf(),
        ensures
            final(self).wf(),
            final(self).contents() == Self::after_push(old(self).contents(), v.ptr()),
            final(self).order() == seq![v.ptr()] + old(self).order(),
            old(self).order().len() > 0 ==> final(self).steal_at() == old(self).steal_at() + 1,
    ;

    /// Puts `v` behind everything that is queued. The next steal takes it, or
    /// what it would have taken without it.
    fn defer(&mut self, v: T)
        requires
            old(self).wf(),
        ensures
            final(self).wf(),
            final(self).contents() == Self::after_defer(old(self).contents(), v.ptr()),
            final(self).order() == old(self).order().push(v.ptr()),
            final(self).steal_at() == old(self).order().len() || final(self).steal_at() == old(
                self,
            ).steal_at(),
    ;

    /// Takes the next item.
    fn try_pop(&mut self) -> (r: Option<T>)
        requires
            old(self).wf(),
        ensures
            final(self).wf(),
            opt_ptr(r) == first_of(old(self).order()),
            final(self).contents() == Self::after_pop(old(self).contents()),
            r is None ==> final(self).contents() == old(self).contents(),
            final(self).order() == rest_of(old(self).order()),
            r is Some && old(self).steal_at() > 0 ==> final(self).steal_at() == old(
                self,
            ).steal_at() - 1,
            r is None ==> final(self).steal_at() == old(self).steal_at(),
            r is None ==> final(self).may_retry() == old(self).may_retry(),
    ;
}

/// Whether two states of a queue cannot be told apart.
pub open spec fn same_queue<T: PointerInterchangeable, Q: WorkerRunQueue<T>>(a: Q, b: Q) -> bool {
    &&& a.contents() == b.contents()
    &&& a.order() == b.order()
    &&& a.steal_at() == b.steal_at()
    &&& a.may_retry() == b.may_retry()
    &&& a.wf() == b.wf()
}

/// Takes from the steal end of a queue of type `Q`.
pub trait RunQueueStealer<T: PointerInterchangeable, Q: WorkerRunQueue<T>>: Sized {
    /// Takes one item.
    fn try_steal(queue: &mut Q) -> (r: Steal<T>)
        requires
            old(queue).wf(),
        ensures
            final(queue).wf(),
            r is Empty == (old(queue).order().len() == 0),
            r is Retry ==> old(queue).may_retry(),
            !(r is Success) ==> same_queue::<T, Q>(*old(queue), *final(queue)),
            r matches Steal::Success(v) ==> {
                &&& v.ptr() == old(queue).order()[old(queue).steal_at()]
                &&& final(queue).contents() == Q::after_steal(old(queue).contents())
                &&& final(queue).order() == old(queue).order().remove(old(queue).steal_at())
            },
    ;
}

/// Pushing and popping undo each other: the item pushed last comes out first
/// and the queue is as it was.
pub proof fn law_push_then_pop(order: Seq<usize>, v: usize)
    ensures
        first_of(seq![v] + order) == Some(v),
        rest_of(seq![v] + order) == order,
{
    assert((seq![v] + order).drop_first() =~= order);
}

/// An item is known by its address, and an empty queue has no first item: what
/// a pop is said to give is an item exactly when there is one.
pub proof fn law_first_item_is_named_by_its_address<T: PointerInterchangeable>(
    v: T,
    order: Seq<usize>,
)
    ensures
        opt_ptr(Some(v)) == Some(v.ptr()),
        opt_ptr(None::<T>) is None,
        first_of(order) is Some <==> order.len() > 0,
        order.len() > 0 ==> first_of(order) == Some(order[0]),
        order.len() > 0 ==> seq![order[0]] + rest_of(order) == order,
        order.len() == 0 ==> rest_of(order) == order,
{
    if order.len() > 0 {
        assert(seq![order[0]] + rest_of(order) =~= order);
    }
}

/// Two states of a queue that cannot be told apart hold the same items in the
/// same order, and are robbed at the same place.
pub proof fn law_same_queue_holds_the_same<T: PointerInterchangeable, Q: WorkerRunQueue<T>>(
    a: Q,
    b: Q,
)
    requires
        same_queue::<T, Q>(a, b),
    ensures
        a.order() == b.order(),
        a.contents() == b.contents(),
        a.steal_at() == b.steal_at(),
        a.may_retry() == b.may_retry(),
        a.wf() == b.wf(),
{
}

/// What is left of an order after `n` pops.
pub open spec fn after_pops(order: Seq<usize>, n: nat) -> Seq<usize>
    decreases n,
{
    if n == 0 {
        order
    } else {
        rest_of(after_pops(order, (n - 1) as nat))
    }
}

/// A deferred item comes out after everything that was queued before it, and
/// what was queued comes out in the same order as without it.
pub proof fn law_deferred_runs_last(order: Seq<usize>, v: usize, n: nat)
    requires
        n <= order.len(),
    ensures
        after_pops(order, n) == order.skip(n as int),
        after_pops(order.push(v), n) == order.skip(n as int).push(v),
        first_of(after_pops(order.push(v), n)) == (if n < order.len() {
            Some(order[n as int])
        } else {
            Some(v)
        }),
    decreases n,
{
    if n == 0 {
        assert(order.skip(0) =~= order);
    } else {
        let m = (n - 1) as nat;
        law_deferred_runs_last(order, v, m);
        assert(order.skip(m as int).drop_first() =~= order.skip(n as int));
        assert(order.skip(m as int).push(v).drop_first() =~= order.skip(n as int).push(v));
    }
}

/// Taking an item, at whichever end, loses nothing and duplicates nothing.
pub proof fn law_taking_conserves_items(order: Seq<usize>, at: int)
    requires
        0 <= at < order.len(),
    ensures
        order.to_multiset() == order.remove(at).to_multiset().insert(order[at]),
{
    broadcast use vstd::seq_lib::group_to_multiset_ensures;

    assert(order.to_multiset() =~= order.remove(at).to_multiset().insert(order[at]));
}

// ---------------------------------------------------------------------------
// The outside deque
// ---------------------------------------------------------------------------

/// `crossbeam_deque::Worker`, opaque.
#[verifier::external_type_specification]
#[verifier::external_body]
#[verifier::reject_recursive_types(T)]
pub struct ExWorker<T>(crossbeam_deque::Worker<T>);

/// The items that a `crossbeam_deque::Worker` holds, oldest first.
pub uninterp spec fn worker_items(w: crossbeam_deque::Worker<usize>) -> Seq<usize>;

/// Whether a `crossbeam_deque::Worker` pops its newest item.
pub uninterp spec fn pops_newest(w: crossbeam_deque::Worker<usize>) -> bool;

/// `crossbeam_deque::Worker::new_lifo`: an empty deque whose owner pushes and
/// pops at the same end.
#[verifier::external_body]
pub(crate) fn worker_new_lifo() -> (r: crossbeam_deque::Worker<usize>)
    ensures
        worker_items(r) == Seq::<usize>::empty(),
        pops_newest(r),
{
    crossbeam_deque::Worker::new_lifo()
}

/// `crossbeam_deque::Worker::push`: the item becomes the newest.
#[verifier::external_body]
pub(crate) fn worker_push(w: &mut crossbeam_deque::Worker<usize>, v: usize)
    ensures
        worker_items(*final(w)) == worker_items(*old(w)).push(v),
        pops_newest(*final(w)) == pops_newest(*old(w)),
{
    w.push(v);
}

/// `crossbeam_deque::Worker::pop` on a deque made by `new_lifo`: takes the
/// newest item; `None` comes only from an empty deque, since no other handle
/// to the deque is in use during the call.
#[verifier::external_body]
pub(crate) fn worker_pop(w: &mut crossbeam_deque::Worker<usize>) -> (r: Option<usize>)
    requires
        pops_newest(*old(w)),
    ensures
        pops_newest(*final(w)),
        worker_items(*old(w)).len() == 0 ==> r is None && worker_items(*final(w)) == worker_items(
            *old(w),
        ),
        worker_items(*old(w)).len() > 0 ==> r == Some(worker_items(*old(w)).last())
            && worker_items(*final(w)) == worker_items(*old(w)).drop_last(),
{
    w.pop()
}

/// `crossbeam_deque::Stealer::steal` through `crossbeam_deque::Worker::stealer`:
/// takes the oldest item, and reports empty exactly when there is none. It asks
/// for another attempt only when another handle to the deque took an item
/// meanwhile, and no other handle is in use during the call.
#[verifier::external_body]
pub(crate) fn worker_steal(w: &mut crossbeam_deque::Worker<usize>) -> (r: Steal<usize>)
    ensures
        pops_newest(*final(w)) == pops_newest(*old(w)),
        r is Empty == (worker_items(*old(w)).len() == 0),
        r is Success == (worker_items(*old(w)).len() > 0),
        r is Empty ==> worker_items(*final(w)) == worker_items(*old(w)),
        r matches Steal::Success(v) ==> v == worker_items(*old(w))[0] && worker_items(*final(w))
            == worker_items(*old(w)).drop_first(),
{
    match w.stealer().steal() {
        crossbeam_deque::Steal::Empty => Steal::Empty,
        crossbeam_deque::Steal::Success(v) => Steal::Success(v),
        crossbeam_deque::Steal::Retry => Steal::Retry,
    }
}

// ---------------------------------------------------------------------------
// HybridRunQueue
// ---------------------------------------------------------------------------

/// First-in first-out overflow list. The flag lets a reader skip the list
/// without locking it.
pub struct Deferred {
    non_empty: bool,
    q: VecDeque<usize>,
}

impl View for Deferred {
    type V = Seq<usize>;

    closed spec fn view(&self) -> Seq<usize> {
        self.q@
    }
}

impl Deferred {
    /// The flag tells the truth.
    pub closed spec fn wf(&self) -> bool {
        self.non_empty == (self.q@.len() > 0)
    }

    /// An empty list.
    pub fn new() -> (r: Self)
        ensures
            r.wf(),
            r@ == Seq::<usize>::empty(),
    {
        Deferred { non_empty: false, q: VecDeque::new() }
    }

    /// Adds an item at the end.
    pub fn push(&mut self, v: usize)
        requires
            old(self).wf(),
        ensures
            final(self).wf(),
            final(self)@ == old(self)@.push(v),
    {
        self.q.push_back(v);
        self.non_empty = true;
    }

    /// Takes the item at the front.
    pub fn try_take(&mut self) -> (r: Option<usize>)
        requires
            old(self).wf(),
        ensures
            final(self).wf(),
            r == first_of(old(self)@),
            final(self)@ == rest_of(old(self)@),
    {
        if !self.non_empty {
            return None;
        }
        let item = self.q.pop_front();
        if self.q.len() == 0 {
            self.non_empty = false;
        }
        item
    }
}

/// A work-stealing deque for what is pushed, and a list for what is deferred.
pub struct HybridRunQueue<T: PointerInterchangeable> {
    main: crossbeam_deque::Worker<usize>,
    deferred: Deferred,
    kind: PhantomData<T>,
}

impl<T: PointerInterchangeable> HybridRunQueue<T> {
    /// What was pushed, oldest first.
    pub closed spec fn pushed(&self) -> Seq<usize> {
        worker_items(self.main)
    }

    /// What was deferred, oldest first.
    pub closed spec fn deferred(&self) -> Seq<usize> {
        self.deferred@
    }

    /// The handle that takes from the steal end.
    pub fn stealer(&self) -> HybridStealer {
        HybridStealer {  }
    }
}

impl<T: PointerInterchangeable> WorkerRunQueue<T> for HybridRunQueue<T> {
    /// What was pushed and what was deferred, each oldest first.
    type Contents = (Seq<usize>, Seq<usize>);

    open spec fn contents(&self) -> (Seq<usize>, Seq<usize>) {
        (self.pushed(), self.deferred())
    }

    open spec fn no_contents() -> (Seq<usize>, Seq<usize>) {
        (Seq::empty(), Seq::empty())
    }

    open spec fn after_push(c: (Seq<usize>, Seq<usize>), v: usize) -> (Seq<usize>, Seq<usize>) {
        (c.0.push(v), c.1)
    }

    open spec fn after_defer(c: (Seq<usize>, Seq<usize>), v: usize) -> (Seq<usize>, Seq<usize>) {
        (c.0, c.1.push(v))
    }

    open spec fn after_pop(c: (Seq<usize>, Seq<usize>)) -> (Seq<usize>, Seq<usize>) {
        if c.0.len() > 0 {
            (c.0.drop_last(), c.1)
        } else {
            (c.0, rest_of(c.1))
        }
    }

    open spec fn after_steal(c: (Seq<usize>, Seq<usize>)) -> (Seq<usize>, Seq<usize>) {
        if c.1.len() > 0 {
            (c.0, c.1.drop_first())
        } else {
            (rest_of(c.0), c.1)
        }
    }

    open spec fn order(&self) -> Seq<usize> {
        self.pushed().reverse() + self.deferred()
    }

    /// The item deferred first, or else the item pushed first.
    open spec fn steal_at(&self) -> int {
        if self.deferred().len() > 0 {
            self.pushed().len() as int
        } else {
            self.pushed().len() - 1
        }
    }

    open spec fn may_retry(&self) -> bool {
        false
    }

    closed spec fn wf(&self) -> bool {
        pops_newest(self.main) && self.deferred.wf()
    }

    proof fn steal_at_in_range(&self) {
    }

    fn new_queue() -> (r: Self)
        ensures
            r.pushed() == Seq::<usize>::empty(),
            r.deferred() == Seq::<usize>::empty(),
    {
        let r = HybridRunQueue {
            main: worker_new_lifo(),
            deferred: Deferred::new(),
            kind: PhantomData,
        };
        assert(r.order() =~= Seq::<usize>::empty());
        r
    }

    fn push(&mut self, v: T)
        ensures
            final(self).pushed() == old(self).pushed().push(v.ptr()),
            final(self).deferred() == old(self).deferred(),
    {
        let ghost p = v.ptr();
        worker_push(&mut self.main, v.into_ptr());
        assert(self.order() =~= seq![p] + old(self).order());
    }

    fn defer(&mut self, v: T)
        ensures
            final(self).pushed() == old(self).pushed(),
            final(self).deferred() == old(self).deferred().push(v.ptr()),
    {
        let ghost p = v.ptr();
        self.deferred.push(v.into_ptr());
        assert(self.order() =~= old(self).order().push(p));
    }

    /// The newest pushed item, or else the oldest deferred one.
    fn try_pop(&mut self) -> (r: Option<T>)
        ensures
            old(self).pushed().len() > 0 ==> {
                &&& opt_ptr(r) == Some(old(self).pushed().last())
                &&& final(self).pushed() == old(self).pushed().drop_last()
                &&& final(self).deferred() == old(self).deferred()
            },
            old(self).pushed().len() == 0 ==> {
                &&& opt_ptr(r) == first_of(old(self).deferred())
                &&& final(self).pushed() == old(self).pushed()
                &&& final(self).deferred() == rest_of(old(self).deferred())
            },
    {
        if let Some(v) = worker_pop(&mut self.main) {
            assert(self.order() =~= old(self).order().drop_first());
            return Some(T::from_ptr(v));
        }
        match self.deferred.try_take() {
            Some(v) => {
                assert(self.order() =~= old(self).order().drop_first());
                Some(T::from_ptr(v))
            },
            None => None,
        }
    }
}

/// The owner runs what was pushed, newest first, and then what was deferred,
/// oldest first. A thief takes what was deferred first or else what was pushed
/// first, and never fails where there is an item.
pub proof fn law_hybrid_queue_order<T: PointerInterchangeable>(q: HybridRunQueue<T>, i: int)
    ensures
        q.order().len() == q.pushed().len() + q.deferred().len(),
        0 <= i < q.pushed().len() ==> q.order()[i] == q.pushed()[q.pushed().len() - 1 - i],
        0 <= i < q.deferred().len() ==> q.order()[q.pushed().len() + i] == q.deferred()[i],
        q.deferred().len() > 0 ==> q.order()[q.steal_at()] == q.deferred()[0],
        q.deferred().len() == 0 && q.pushed().len() > 0 ==> q.order()[q.steal_at()]
            == q.pushed()[0],
        !q.may_retry(),
{
}

/// Steals from a [`HybridRunQueue`].
#[derive(Clone, Copy)]
pub struct HybridStealer {}

impl<T: PointerInterchangeable> RunQueueStealer<T, HybridRunQueue<T>> for HybridStealer {
    /// The oldest deferred item, or else the oldest pushed one.
    fn try_steal(queue: &mut HybridRunQueue<T>) -> (r: Steal<T>)
        ensures
            old(queue).deferred().len() > 0 ==> {
                &&& r matches Steal::Success(v) && v.ptr() == old(queue).deferred()[0]
                &&& final(queue).deferred() == old(queue).deferred().drop_first()
                &&& final(queue).pushed() == old(queue).pushed()
            },
            old(queue).deferred().len() == 0 && old(queue).pushed().len() > 0 ==> {
                &&& r matches Steal::Success(v) && v.ptr() == old(queue).pushed()[0]
                &&& final(queue).deferred() == old(queue).deferred()
                &&& final(queue).pushed() == old(queue).pushed().drop_first()
            },
            old(queue).deferred().len() == 0 && old(queue).pushed().len() == 0 ==> {
                &&& r is Empty
                &&& final(queue).deferred() == old(queue).deferred()
                &&& final(queue).pushed() == old(queue).pushed()
            },
    {
        if let Some(v) = queue.deferred.try_take() {
            assert(queue.order() =~= old(queue).order().remove(old(queue).steal_at()));
            return Steal::Success(T::from_ptr(v));
        }
        match worker_steal(&mut queue.main) {
            Steal::Success(v) => {
                assert(queue.order() =~= old(queue).order().remove(old(queue).steal_at()));
                Steal::Success(T::from_ptr(v))
            },
            Steal::Empty => Steal::Empty,
            Steal::Retry => Steal::Retry,
        }
    }
}

// ---------------------------------------------------------------------------
// SpinRunQueue
// ---------------------------------------------------------------------------

/// One double-ended list for everything.
pub struct SpinRunQueue<T: PointerInterchangeable> {
    q: VecDeque<usize>,
    kind: PhantomData<T>,
}

impl<T: PointerInterchangeable> SpinRunQueue<T> {
    /// The list, front first.
    pub closed spec fn list(&self) -> Seq<usize> {
        self.q@
    }

    /// The handle that takes from the steal end.
    pub fn stealer(&self) -> SpinStealer {
        SpinStealer {  }
    }
}

impl<T: PointerInterchangeable> WorkerRunQueue<T> for SpinRunQueue<T> {
    /// The list, front first.
    type Contents = Seq<usize>;

    open spec fn contents(&self) -> Seq<usize> {
        self.list()
    }

    open spec fn no_contents() -> Seq<usize> {
        Seq::empty()
    }

    open spec fn after_push(c: Seq<usize>, v: usize) -> Seq<usize> {
        seq![v] + c
    }

    open spec fn after_defer(c: Seq<usize>, v: usize) -> Seq<usize> {
        c.push(v)
    }

    open spec fn after_pop(c: Seq<usize>) -> Seq<usize> {
        rest_of(c)
    }

    open spec fn after_steal(c: Seq<usize>) -> Seq<usize> {
        if c.len() > 0 {
            c.drop_last()
        } else {
            c
        }
    }

    open spec fn order(&self) -> Seq<usize> {
        self.list()
    }

    /// The back of the list.
    open spec fn steal_at(&self) -> int {
        self.list().len() - 1
    }

    open spec fn may_retry(&self) -> bool {
        false
    }

    open spec fn wf(&self) -> bool {
        true
    }

    proof fn steal_at_in_range(&self) {
    }

    fn new_queue() -> (r: Self) {
        SpinRunQueue { q: VecDeque::new(), kind: PhantomData }
    }

    fn push(&mut self, v: T) {
        let ghost p = v.ptr();
        self.q.push_front(v.into_ptr());
        assert(self.order() =~= seq![p] + old(self).order());
    }

    fn defer(&mut self, v: T) {
        self.q.push_back(v.into_ptr());
    }

    fn try_pop(&mut self) -> (r: Option<T>) {
        match self.q.pop_front() {
            Some(v) => {
                assert(self.order() =~= old(self).order().drop_first());
                Some(T::from_ptr(v))
            },
            None => None,
        }
    }
}

/// The owner runs from the front of the list, a thief takes its back, and never
/// fails where there is an item.
pub proof fn law_spin_queue_order<T: PointerInterchangeable>(q: SpinRunQueue<T>)
    ensures
        q.order() == q.list(),
        q.order().len() > 0 ==> q.order()[q.steal_at()] == q.order().last(),
        !q.may_retry(),
{
}

/// Steals from a [`SpinRunQueue`].
#[derive(Clone, Copy)]
pub struct SpinStealer {}

impl<T: PointerInterchangeable> RunQueueStealer<T, SpinRunQueue<T>> for SpinStealer {
    fn try_steal(queue: &mut SpinRunQueue<T>) -> (r: Steal<T>)
        ensures
            old(queue).list().len() > 0 ==> {
                &&& r matches Steal::Success(v) && v.ptr() == old(queue).list().last()
                &&& final(queue).list() == old(queue).list().drop_last()
            },
    {
        match queue.q.pop_back() {
            Some(v) => {
                assert(queue.order() =~= old(queue).order().remove(old(queue).steal_at()));
                Steal::Success(T::from_ptr(v))
            },
            None => Steal::Empty,
        }
    }
}

} // verus!
