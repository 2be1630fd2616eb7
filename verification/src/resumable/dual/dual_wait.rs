//! The one-place slot that a waiter of either kind parks in.
//!
//! A waiter is a suspended task with a stack of its own, or the waker of one
//! that is polled. One word holds either: its lowest bit tells them apart.
use vstd::prelude::*;

use crate::context::{CondTransfer, Context};
use crate::interchange;
use crate::interchange::{AtomicTaggedSlot, PointerInterchangeable, TaggedPtr, Transferred};
use crate::resumable::common::deque::WorkerRunQueue;
use crate::resumable::common::desc::{SuspendedTaskToken, TaskDescCore};
use crate::resumable::common::scheduler::Scheduler;
use crate::resumable::common::worker::DescWorkerOps;
use crate::resumable::common::system::SchedulerSystem;
use crate::resumable::stackful::desc as stackful_desc;
use crate::resumable::stackful::desc::HasCtx;
use crate::resumable::stackful::suspended;
use crate::resumable::stackful::system::StackfulWorkerSystem;
use crate::resumable::stackful::worker as stackful_worker;
use crate::resumable::stackful::worker::{ContextSwitcher, PendingSwitch, StackfulWorker};

verus! {

/// The tag of a slot that holds a waker.
pub const ASYNC_TAG: usize = 1;

/// Who waits.
#[derive(Clone, Copy, PartialEq, Eq, Structural, Debug)]
pub enum Waiter {
    /// The suspended task at this address.
    Task(usize),
    /// The owner of the waker at this address.
    Polled(usize),
}

/// A waker in a box, by the address of the box.
pub struct BoxedWaker {
    addr: usize,
}

impl PointerInterchangeable for BoxedWaker {
    closed spec fn ptr(&self) -> usize {
        self.addr
    }

    fn into_ptr(self) -> (p: usize) {
        self.addr
    }

    fn from_ptr(ptr: usize) -> (r: Self) {
        BoxedWaker { addr: ptr }
    }
}

/// What waking comes to.
#[derive(Clone, Copy, PartialEq, Eq, Structural, Debug)]
pub enum DualWake {
    /// Nobody waited.
    Nothing,
    /// The task that waited is the next to run.
    Pushed,
    /// The waker in the box at this address is to be called and freed.
    CallWaker(usize),
}

/// Whether waking `waiter` on worker `wk` takes `a` to `b` and comes to `r`.
pub open spec fn woken<S: SchedulerSystem>(
    waiter: Option<Waiter>,
    a: Scheduler<S>,
    b: Scheduler<S>,
    wk: int,
    r: DualWake,
) -> bool {
    match waiter {
        None => r == DualWake::Nothing && b == a,
        Some(Waiter::Polled(p)) => r == DualWake::CallWaker(p) && b == a,
        Some(Waiter::Task(c)) => r == DualWake::Pushed && suspended::pushed_to(a, b, wk, c),
    }
}

/// What a worker does about a slot that it wants to go on with.
pub enum DualEnter {
    /// Switch to the task that waited.
    Switch(PendingSwitch),
    /// There was no task to switch to: the waiter was woken instead.
    Woke(DualWake),
}

/// Whether `b` is `a` after the context of the task `c` was claimed for the
/// switch `p`.
pub open spec fn claimed_for<S: SchedulerSystem>(
    a: Scheduler<S>,
    b: Scheduler<S>,
    c: usize,
    p: PendingSwitch,
) -> bool where <S::Desc as TaskDescCore>::Owned: HasCtx {
    &&& p.next.ptr() == c
    &&& p.to.0 == stackful_desc::ctx_at(a.tasks@, c)
    &&& b.workers == a.workers
    &&& b.tasks@ == stackful_desc::with_ctx_at(a.tasks@, c, 0)
    &&& stackful_worker::same_but_workers_and_tasks(a, b)
}

/// Whether worker `wk` runs a task with a stack of its own, and is not inside
/// its own loop, where polled tasks are called.
pub open spec fn on_real_ult<S: SchedulerSystem>(s: Scheduler<S>, wk: int) -> bool {
    &&& 0 <= wk < s.workers@.len()
    &&& s.workers@[wk].running() is Some
    &&& s.tasks@.dom().contains(s.workers@[wk].running()->0)
    &&& !s.tasks@[s.workers@[wk].running()->0].payload.root()
}

/// Whether worker `wk` runs a task with a stack of its own. Only there can an
/// operation that suspends be called.
pub fn is_on_real_ult<S: SchedulerSystem>(sched: &Scheduler<S>, wk: usize) -> (r: bool)
    requires
        wk < sched.workers@.len(),
        sched.tasks.wf(),
        sched.workers@[wk as int].running() is Some,
        sched.tasks@.dom().contains(sched.workers@[wk as int].running()->0),
    ensures
        r == on_real_ult(*sched, wk as int),
{
    let cur: usize = sched.workers[wk].cur_task();
    !sched.tasks.get(cur).payload.is_root()
}

/// A slot for one waiter of either kind.
pub struct DualResumable {
    state: AtomicTaggedSlot<1>,
}

/// Whether a task's address can be parked in a [`DualResumable`].
pub open spec fn can_park(addr: usize) -> bool {
    addr != 0 && interchange::leaves_tag_bits(addr, 1)
}

/// Every address of a descriptor can be parked.
pub proof fn law_descriptors_can_park(addr: usize)
    requires
        crate::resumable::common::desc::is_desc_addr(addr),
    ensures
        can_park(addr),
{
    assert(addr % 8 == 0 ==> addr & ((1usize << 1usize) - 1) as usize == 0) by (bit_vector);
}

/// The waiter that a tagged address stands for.
pub open spec fn waiter_of(contents: Option<(usize, usize)>) -> Option<Waiter> {
    match contents {
        None => None,
        Some((p, tag)) => if tag == ASYNC_TAG {
            Some(Waiter::Polled(p))
        } else {
            Some(Waiter::Task(p))
        },
    }
}

proof fn lemma_tag_mask()
    ensures
        interchange::tag_mask(1) == 1,
{
    assert(((1usize << 1usize) - 1) as usize == 1) by (bit_vector);
}

impl DualResumable {
    /// The waiter in the slot.
    pub closed spec fn waiter(&self) -> Option<Waiter> {
        waiter_of(self.state.contents())
    }

    /// An empty slot.
    pub fn new() -> (r: Self)
        ensures
            r.waiter() is None,
    {
        DualResumable { state: AtomicTaggedSlot::empty() }
    }

    /// Wakes what was taken out of a slot: a task is the next to run on worker
    /// `wk`; a waker is handed out to be called.
    fn wake_raw<S: SchedulerSystem>(
        v: Option<(usize, TaggedPtr<1>)>,
        sched: &mut Scheduler<S>,
        wk: usize,
    ) -> (r: DualWake)
        requires
            wk < old(sched).workers@.len(),
            old(sched).workers@[wk as int].deque.wf(),
        ensures
            woken(
                match v {
                    None => None,
                    Some((tag, raw)) => waiter_of(Some((raw.ptr(), tag))),
                },
                *old(sched),
                *final(sched),
                wk as int,
                r,
            ),
    {
        match v {
            None => DualWake::Nothing,
            Some((tag, raw)) => if tag == ASYNC_TAG {
                let w: BoxedWaker = raw.into_typed();
                DualWake::CallWaker(w.into_ptr())
            } else {
                let c: SuspendedTaskToken = raw.into_typed();
                suspended::push_to(sched, wk, c);
                DualWake::Pushed
            },
        }
    }

    /// Whether anybody waits.
    pub fn is_set(&self) -> (r: bool)
        ensures
            r == self.waiter() is Some,
    {
        self.state.is_set()
    }

    /// Wakes whoever waits.
    pub fn notify<S: SchedulerSystem>(&mut self, sched: &mut Scheduler<S>, wk: usize) -> (r:
        DualWake)
        requires
            wk < old(sched).workers@.len(),
            old(sched).workers@[wk as int].deque.wf(),
        ensures
            final(self).waiter() is None,
            woken(old(self).waiter(), *old(sched), *final(sched), wk as int, r),
    {
        let v = self.state.take();
        Self::wake_raw(v, sched, wk)
    }

    /// Second half of a wait: the task that was left is parked in the slot.
    pub fn wait_with<S: SchedulerSystem>(
        &mut self,
        sched: &mut Scheduler<S>,
        wk: usize,
        prev: Context,
        next: Transferred<SuspendedTaskToken>,
    ) where <S::Desc as TaskDescCore>::Owned: HasCtx
        requires
            stackful_worker::can_leave(*old(sched), wk as int),
            on_real_ult(*old(sched), wk as int),
            can_park(old(sched).workers@[wk as int].running()->0),
        ensures
            final(self).waiter() == Some(
                Waiter::Task(old(sched).workers@[wk as int].running()->0),
            ),
            stackful_worker::left_for(*old(sched), *final(sched), wk as int, prev.0, next.ptr()),
    {
        let c = sched.suspend_shim(wk, prev, next);
        proof {
            lemma_tag_mask();
        }
        self.state.publish(c, 0);
    }

    /// Second half of a wait that may be called off, up to the decision.
    pub fn wait_with_cond<S: SchedulerSystem>(
        &mut self,
        sched: &mut Scheduler<S>,
        wk: usize,
        prev: Context,
        next: SuspendedTaskToken,
    ) where <S::Desc as TaskDescCore>::Owned: HasCtx
        requires
            stackful_worker::can_leave(*old(sched), wk as int),
            on_real_ult(*old(sched), wk as int),
            can_park(old(sched).workers@[wk as int].running()->0),
        ensures
            final(self).waiter() == Some(
                Waiter::Task(old(sched).workers@[wk as int].running()->0),
            ),
            stackful_worker::left_for(*old(sched), *final(sched), wk as int, prev.0, next.ptr()),
    {
        let c = sched.cond_suspend_shim(wk, prev, next);
        proof {
            lemma_tag_mask();
        }
        self.state.publish(c, 0);
    }

    /// The decision of a wait that may be called off: when it is, the parked
    /// task is taken out again and goes on.
    pub fn wait_with_cond_decided<S: StackfulWorkerSystem>(
        &mut self,
        sched: &mut Scheduler<S>,
        wk: usize,
        keep: bool,
    ) -> (r: CondTransfer) where <S::Desc as TaskDescCore>::Owned: HasCtx
        requires
            old(self).waiter() matches Some(Waiter::Task(_)),
            wk < old(sched).workers@.len(),
            old(sched).tasks.wf(),
            old(sched).workers@[wk as int].running() is Some,
            old(sched).workers@[wk as int].deque.wf(),
            stackful_desc::is_stackful_at(
                old(sched).tasks@,
                old(sched).workers@[wk as int].running()->0,
            ),
            stackful_desc::is_stackful_at(old(sched).tasks@, old(self).waiter()->0->Task_0),
            old(self).waiter()->0->Task_0 != old(sched).workers@[wk as int].running()->0,
            old(sched).tasks@[old(sched).workers@[wk as int].running()->0].payload.root() ==> old(
                sched,
            ).workers@[wk as int].root_cont is None,
        ensures
            r == CondTransfer::of(wk, keep),
            keep ==> {
                &&& final(self).waiter() == old(self).waiter()
                &&& final(sched).workers == old(sched).workers
                &&& final(sched).tasks@ == stackful_desc::with_ctx_at(
                    old(sched).tasks@,
                    old(sched).workers@[wk as int].running()->0,
                    0,
                )
                &&& stackful_worker::same_but_workers_and_tasks(*old(sched), *final(sched))
            },
            !keep ==> {
                &&& final(self).waiter() is None
                &&& stackful_worker::called_off(
                    *old(sched),
                    *final(sched),
                    wk as int,
                    old(self).waiter()->0->Task_0,
                )
            },
    {
        if keep {
            sched.cond_suspend_finish(wk, None)
        } else {
            let v = self.state.take();
            let (_, raw) = v.unwrap();
            let c: SuspendedTaskToken = raw.into_typed();
            sched.cond_suspend_finish(wk, Some(c))
        }
    }

    /// First half of going on with the waiter at once. There is a switch only
    /// to a task with a stack of its own; any other waiter is woken instead.
    pub fn enter<S: SchedulerSystem>(&mut self, sched: &mut Scheduler<S>, wk: usize) -> (r:
        DualEnter) where <S::Desc as TaskDescCore>::Owned: HasCtx
        requires
            on_real_ult(*old(sched), wk as int),
            old(sched).workers@[wk as int].deque.wf(),
            old(sched).tasks.wf(),
            old(self).waiter() matches Some(Waiter::Task(c)) ==> stackful_desc::is_stackful_at(
                old(sched).tasks@,
                c,
            ) && stackful_desc::ctx_at(old(sched).tasks@, c) != 0,
        ensures
            final(self).waiter() is None,
            match r {
                DualEnter::Switch(p) => {
                    &&& old(self).waiter() == Some(Waiter::Task(p.next.ptr()))
                    &&& claimed_for(*old(sched), *final(sched), p.next.ptr(), p)
                },
                DualEnter::Woke(w) => {
                    &&& !(old(self).waiter() matches Some(Waiter::Task(_)))
                    &&& woken(old(self).waiter(), *old(sched), *final(sched), wk as int, w)
                },
            },
    {
        match self.state.take() {
            Some((tag, raw)) => if tag != ASYNC_TAG {
                let c: SuspendedTaskToken = raw.into_typed();
                DualEnter::Switch(sched.suspend_to_cont(c))
            } else {
                DualEnter::Woke(Self::wake_raw(Some((tag, raw)), sched, wk))
            },
            None => DualEnter::Woke(DualWake::Nothing),
        }
    }

    /// First half of parking in this slot while going on with the waiter in
    /// `next`. The second half of a switch is [`DualResumable::wait_with`];
    /// without a switch, nobody is parked here.
    pub fn swap<S: SchedulerSystem>(&self, next: &mut Self, sched: &mut Scheduler<S>, wk: usize) -> (r:
        DualEnter) where <S::Desc as TaskDescCore>::Owned: HasCtx
        requires
            self.waiter() is None,
            on_real_ult(*old(sched), wk as int),
            old(sched).workers@[wk as int].deque.wf(),
            old(sched).tasks.wf(),
            old(next).waiter() matches Some(Waiter::Task(c)) ==> stackful_desc::is_stackful_at(
                old(sched).tasks@,
                c,
            ) && stackful_desc::ctx_at(old(sched).tasks@, c) != 0,
        ensures
            final(next).waiter() is None,
            match r {
                DualEnter::Switch(p) => {
                    &&& old(next).waiter() == Some(Waiter::Task(p.next.ptr()))
                    &&& claimed_for(*old(sched), *final(sched), p.next.ptr(), p)
                },
                DualEnter::Woke(w) => {
                    &&& !(old(next).waiter() matches Some(Waiter::Task(_)))
                    &&& woken(old(next).waiter(), *old(sched), *final(sched), wk as int, w)
                },
            },
    {
        next.enter(sched, wk)
    }

    /// Parks the waker in the box at `waker`.
    pub fn register(&mut self, waker: usize)
        requires
            old(self).waiter() is None,
            can_park(waker),
        ensures
            final(self).waiter() == Some(Waiter::Polled(waker)),
    {
        proof {
            lemma_tag_mask();
        }
        self.state.publish(BoxedWaker { addr: waker }, ASYNC_TAG);
    }
}

/// Waking reaches whoever waits, and only them: a task is put in front of its
/// worker's queue, the owner of a waker is handed their waker and leaves every
/// queue alone, and where nobody waits nothing happens.
pub proof fn law_waking_reaches_the_waiter<S: SchedulerSystem>(
    waiter: Option<Waiter>,
    a: Scheduler<S>,
    b: Scheduler<S>,
    wk: int,
    r: DualWake,
)
    requires
        0 <= wk < a.workers@.len(),
        woken(waiter, a, b, wk, r),
    ensures
        waiter is None <==> r is Nothing,
        waiter matches Some(Waiter::Task(_)) <==> r is Pushed,
        waiter matches Some(Waiter::Polled(p)) ==> r == DualWake::CallWaker(p),
        waiter matches Some(Waiter::Task(c)) ==> b.workers@[wk].deque.order() == seq![c]
            + a.workers@[wk].deque.order(),
        b.workers@.len() == a.workers@.len(),
        forall|i: int|
            0 <= i < a.workers@.len() && (i != wk || !(r is Pushed))
                ==> #[trigger] b.workers@[i] == a.workers@[i],
        b == (Scheduler::<S> { workers: b.workers, ..a }),
{
}

/// A word that holds a waiter is read back as the kind that was put there: the
/// lowest bit alone tells wakers from tasks.
pub proof fn law_waiter_kind_is_the_lowest_bit(p: usize, tag: usize)
    requires
        tag < 2,
    ensures
        waiter_of(None) is None,
        waiter_of(Some((p, tag))) == Some(
            if tag == 1 {
                Waiter::Polled(p)
            } else {
                Waiter::Task(p)
            },
        ),
        can_park(p) <==> p != 0 && p % 2 == 0,
{
    assert(p & ((1usize << 1usize) - 1) as usize == 0 <==> p % 2 == 0) by (bit_vector);
}

/// Going on with a waiting task at once takes the context that it was left with,
/// which nobody else can take then, and changes nothing else.
pub proof fn law_entered_task_is_claimed<S: SchedulerSystem>(
    a: Scheduler<S>,
    b: Scheduler<S>,
    c: usize,
    p: PendingSwitch,
    other: usize,
) where <S::Desc as TaskDescCore>::Owned: HasCtx
    requires
        stackful_desc::is_stackful_at(a.tasks@, c),
        claimed_for(a, b, c, p),
    ensures
        p.next.ptr() == c,
        p.to.0 == a.tasks@[c].payload.spec_owned().spec_ctx(),
        b.tasks@[c].payload.spec_owned().spec_ctx() == 0,
        b.tasks@.dom() =~= a.tasks@.dom(),
        other != c && a.tasks@.dom().contains(other) ==> b.tasks@[other] == a.tasks@[other],
        b == (Scheduler::<S> { tasks: b.tasks, ..a }),
{
    stackful_desc::lemma_ctx_at(a.tasks@, c, 0);
}

/// A worker's own loop is no task to suspend: a worker is on a task with a stack
/// of its own exactly when the task that it runs is not the loop of a worker.
pub proof fn law_own_loop_is_no_real_task<S: SchedulerSystem>(
    s: Scheduler<S>,
    wk: int,
    task: usize,
)
    requires
        0 <= wk < s.workers@.len(),
        s.workers@[wk].running() == Some(task),
        s.tasks@.dom().contains(task),
    ensures
        on_real_ult(s, wk) <==> !s.tasks@[task].payload.root(),
{
}

} // verus!
