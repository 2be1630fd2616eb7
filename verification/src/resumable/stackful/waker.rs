//! Waiting for a future on a stack of its own.
//!
//! The wake state lies in the descriptor of the task that waits, or, where
//! descriptors have none, in a slot that is made for the wait.
use vstd::prelude::*;

use crate::context::{CondTransfer, Context};
use crate::interchange::PointerInterchangeable;
use crate::resumable::common::deque::WorkerRunQueue;
use crate::resumable::common::desc::{HasExternalQueue, SuspendedTaskToken, TaskDescCore};
use crate::resumable::common::pool::Node;
use crate::resumable::common::scheduler::Scheduler;
use crate::resumable::common::worker::DescWorkerOps;
use crate::resumable::common::system::SchedulerSystem;
use crate::resumable::common::waker;
use crate::resumable::common::waker::WakeOutcome;
use crate::resumable::stackful::desc as stackful_desc;
use crate::resumable::stackful::desc::HasCtx;
use crate::resumable::stackful::system;
use crate::resumable::stackful::system::StackfulWorkerSystem;
use crate::resumable::stackful::worker as stackful_worker;
use crate::resumable::stackful::worker::{ContextSwitcher, PendingSwitch, StackfulWorker};
use crate::resumable::stackless::desc::WakerTaskDesc;

verus! {

/// The tasks with the wake word of the one at `p` replaced.
pub open spec fn with_wake_word_at<D: WakerTaskDesc>(
    tasks: Map<usize, Node<D>>,
    p: usize,
    w: u64,
) -> Map<usize, Node<D>> {
    tasks.insert(p, Node { payload: tasks[p].payload.with_wake_word(w), ..tasks[p] })
}

/// How a poller waits.
pub enum PollerWait {
    /// Make this switch, which may be called off.
    Suspend(PendingSwitch),
    /// The caller is not one of the tasks: let the system below run, and poll
    /// again.
    YieldBelow,
}

/// Waits with the wake state in the descriptor. Outside of all workers there
/// is none.
pub struct UltPoller {
    pub desc: Option<usize>,
}

impl UltPoller {
    /// Begins a poll session of the task that runs on worker `current`.
    pub fn new<S: SchedulerSystem>(sched: &mut Scheduler<S>, current: Option<usize>) -> (r:
        Self) where S::Desc: WakerTaskDesc
        requires
            old(sched).tasks.wf(),
            current matches Some(wk) ==> {
                &&& wk < old(sched).workers@.len()
                &&& old(sched).workers@[wk as int].running() is Some
                &&& old(sched).tasks@.dom().contains(old(sched).workers@[wk as int].running()->0)
            },
        ensures
            match current {
                Some(wk) => {
                    &&& r.desc == old(sched).workers@[wk as int].running()
                    &&& final(sched).tasks@ == with_wake_word_at(
                        old(sched).tasks@,
                        r.desc->0,
                        waker::POLLING,
                    )
                    &&& final(sched).tasks.wf()
                    &&& *final(sched) == (Scheduler::<S> {
                        tasks: final(sched).tasks,
                        ..*old(sched)
                    })
                },
                None => r.desc is None && *final(sched) == *old(sched),
            },
    {
        match current {
            Some(wk) => {
                let desc: usize = sched.workers[wk].cur_task();
                let node = sched.tasks.get_mut(desc);
                node.payload.mark_polling();
                UltPoller { desc: Some(desc) }
            },
            None => UltPoller { desc: None },
        }
    }

    /// First half of waiting for a wake on worker `wk`.
    pub fn wait<S: StackfulWorkerSystem>(&self, sched: &mut Scheduler<S>, wk: usize) -> (r:
        PollerWait) where <S::Desc as TaskDescCore>::Owned: HasCtx
        requires
            self.desc is Some ==> stackful_worker::can_suspend(*old(sched), wk as int),
        ensures
            match r {
                PollerWait::YieldBelow => self.desc is None && *final(sched) == *old(sched),
                PollerWait::Suspend(p) => self.desc is Some && picked_next(
                    *old(sched),
                    *final(sched),
                    wk as int,
                    p,
                ),
            },
    {
        match self.desc {
            Some(_) => PollerWait::Suspend(sched.cond_suspend_to_sched(wk)),
            None => PollerWait::YieldBelow,
        }
    }

    /// Second half: the task was left with the context `prev`. It parks, or,
    /// when a wake came in during the poll, goes on at once.
    pub fn wait_land<S: StackfulWorkerSystem>(
        &self,
        sched: &mut Scheduler<S>,
        wk: usize,
        prev: Context,
        next: SuspendedTaskToken,
    ) -> (r: CondTransfer) where
        <S::Desc as TaskDescCore>::Owned: HasCtx,
        S::Desc: WakerTaskDesc,

        requires
            stackful_worker::can_leave(*old(sched), wk as int),
            old(sched).workers@[wk as int].deque.wf(),
            self.desc == old(sched).workers@[wk as int].running(),
            stackful_desc::is_stackful_at(old(sched).tasks@, next.ptr()),
            next.ptr() != old(sched).workers@[wk as int].running()->0,
            old(sched).tasks@[next.ptr()].payload.root() ==> old(
                sched,
            ).workers@[wk as int].root_cont is None,
        ensures
            ({
                let a = *old(sched);
                let b = *final(sched);
                let d = self.desc->0;
                let word = a.tasks@[d].payload.wake_word();
                let parked = with_wake_word_at(
                    stackful_desc::with_ctx_at(a.tasks@, d, prev.0),
                    d,
                    waker::after_park(word),
                );
                &&& r == CondTransfer::of(wk, waker::park_commits(word))
                &&& waker::park_commits(word) ==> {
                    &&& stackful_worker::runs_instead(
                        a.workers@,
                        b.workers@,
                        wk as int,
                        next.ptr(),
                    )
                    &&& b.tasks@ == stackful_desc::with_ctx_at(parked, next.ptr(), 0)
                    &&& stackful_worker::same_but_workers_and_tasks(a, b)
                }
                &&& !waker::park_commits(word) ==> exists|mid: Scheduler<S>|
                    {
                        &&& mid.tasks@ == parked
                        &&& stackful_worker::same_but_workers_and_tasks(a, mid)
                        &&& stackful_worker::runs_instead(
                            a.workers@,
                            mid.workers@,
                            wk as int,
                            next.ptr(),
                        )
                        &&& #[trigger] stackful_worker::called_off(mid, b, wk as int, d)
                    }
            }),
    {
        let ghost a = *old(sched);
        let ghost d = a.workers@[wk as int].running()->0;
        let ghost word = a.tasks@[d].payload.wake_word();
        proof {
            stackful_desc::lemma_ctx_at(a.tasks@, d, prev.0);
            a.tasks@[d].payload.wake_word_is_separate(0);
        }
        let c = sched.cond_suspend_shim(wk, prev, next);
        let ghost left = *sched;
        assert(left.tasks@[next.ptr()] == a.tasks@[next.ptr()]);
        let desc: usize = c.desc();
        let node = sched.tasks.get_mut(desc);
        let parked = node.payload.decide_park();
        let ghost mid = *sched;
        proof {
            left.tasks@[d].payload.wake_word_is_separate(waker::after_park(word));
        }
        assert(mid.tasks@[next.ptr()] == a.tasks@[next.ptr()]);
        if parked {
            let _ = c.into_raw();
            sched.cond_suspend_finish(wk, None)
        } else {
            let transfer = sched.cond_suspend_finish(wk, Some(c));
            assert(stackful_worker::called_off(mid, *sched, wk as int, d));
            transfer
        }
    }

    /// Ends the poll session: wakes that come later change nothing.
    pub fn close<S: SchedulerSystem>(self, sched: &mut Scheduler<S>) where S::Desc: WakerTaskDesc
        requires
            old(sched).tasks.wf(),
            self.desc matches Some(d) ==> old(sched).tasks@.dom().contains(d),
        ensures
            match self.desc {
                Some(d) => {
                    &&& final(sched).tasks@ == with_wake_word_at(
                        old(sched).tasks@,
                        d,
                        waker::IDLE,
                    )
                    &&& final(sched).tasks.wf()
                    &&& *final(sched) == (Scheduler::<S> {
                        tasks: final(sched).tasks,
                        ..*old(sched)
                    })
                },
                None => *final(sched) == *old(sched),
            },
    {
        if let Some(d) = self.desc {
            let node = sched.tasks.get_mut(d);
            node.payload.mark_idle();
        }
    }
}

/// Whether `b` is `a` after worker `wk` picked the target of the switch `p`,
/// whose context stays in place.
pub open spec fn picked_next<S: StackfulWorkerSystem>(
    a: Scheduler<S>,
    b: Scheduler<S>,
    wk: int,
    p: PendingSwitch,
) -> bool where <S::Desc as TaskDescCore>::Owned: HasCtx {
    &&& p.next.ptr() == stackful_worker::pick_target(a.workers@[wk], a.tasks@)
    &&& p.to.0 == stackful_desc::ctx_at(a.tasks@, p.next.ptr())
    &&& system::picked(a.workers@[wk], b.workers@[wk], a.tasks@, p.next.ptr())
    &&& stackful_worker::only_worker_changed(a, b, wk)
}

/// Which functions a waker is called through.
#[derive(Clone, Copy, PartialEq, Eq, Structural, Debug)]
pub enum WakerKind {
    /// It was made with its poller.
    Private,
    /// It is a clone.
    Shared,
}

/// Clones the waker of the task at `desc`. The first clone of the one that was
/// made with the poller leaves its mark; every clone is a shared one.
pub fn clone_waker<S: SchedulerSystem>(sched: &mut Scheduler<S>, desc: usize, kind: WakerKind) -> (r:
    WakerKind) where S::Desc: WakerTaskDesc
    requires
        old(sched).tasks.wf(),
        old(sched).tasks@.dom().contains(desc),
    ensures
        r == WakerKind::Shared,
        kind is Shared ==> *final(sched) == *old(sched),
        kind is Private ==> final(sched).tasks@ == with_wake_word_at(
            old(sched).tasks@,
            desc,
            waker::after_share(old(sched).tasks@[desc].payload.wake_word()),
        ),
        final(sched).tasks.wf(),
        final(sched).tasks.has_room() == old(sched).tasks.has_room(),
        *final(sched) == (Scheduler::<S> { tasks: final(sched).tasks, ..*old(sched) }),
{
    match kind {
        WakerKind::Private => {
            let node = sched.tasks.get_mut(desc);
            node.payload.transition_to_shared();
        },
        WakerKind::Shared => {},
    }
    WakerKind::Shared
}

/// Wakes the task at `desc`, from worker `current` or from outside: a task that
/// runs polls again, and one that is parked becomes ready.
pub fn try_wake<S: SchedulerSystem>(
    sched: &mut Scheduler<S>,
    current: Option<usize>,
    desc: usize,
) -> (r: WakeOutcome) where S::Desc: WakerTaskDesc
    requires
        old(sched).queues_wf(),
        old(sched).tasks.wf(),
        old(sched).tasks@.dom().contains(desc),
        current matches Some(wk) ==> wk < old(sched).workers@.len(),
        current is None && waker::wake_outcome(old(sched).tasks@[desc].payload.wake_word())
            == WakeOutcome::ClaimedParked ==> old(
            sched,
        ).tasks@[desc].payload.spec_owned().spec_external_queue() != 0,
    ensures
        r == waker::wake_outcome(old(sched).tasks@[desc].payload.wake_word()),
        final(sched).queues_wf(),
        final(sched).tasks.wf(),
        final(sched).tasks@ == with_wake_word_at(
            old(sched).tasks@,
            desc,
            waker::after_wake(old(sched).tasks@[desc].payload.wake_word()),
        ),
        r == WakeOutcome::ClaimedParked ==> old(sched).delivered(*final(sched), current, desc),
        r != WakeOutcome::ClaimedParked ==> final(sched).workers == old(sched).workers
            && final(sched).external_queue == old(sched).external_queue,
        *final(sched) == (Scheduler::<S> {
            tasks: final(sched).tasks,
            workers: final(sched).workers,
            external_queue: final(sched).external_queue,
            ..*old(sched)
        }),
{
    let node = sched.tasks.get_mut(desc);
    let outcome = node.payload.try_wake_state();
    proof {
        old(sched).tasks@[desc].payload.wake_word_is_separate(
            waker::after_wake(old(sched).tasks@[desc].payload.wake_word()),
        );
    }
    if let WakeOutcome::ClaimedParked = outcome {
        sched.push_continuation(current, SuspendedTaskToken::from_raw(desc));
    }
    outcome
}

/// The wake state of one wait, where descriptors have none.
pub struct ResumablePollerSlot {
    pub state: u64,
    pub cont: usize,
}

/// Waits with the wake state in a slot that is made for the wait. Outside of
/// all workers there is none.
pub struct ResumablePoller {
    pub slot: Option<ResumablePollerSlot>,
}

impl ResumablePoller {
    /// Begins a poll session, of a task of the system or from outside of it.
    pub fn new(inside: bool) -> (r: Self)
        ensures
            match r.slot {
                Some(slot) => inside && slot.state == waker::POLLING && slot.cont == 0,
                None => !inside,
            },
    {
        if inside {
            ResumablePoller { slot: Some(ResumablePollerSlot { state: waker::POLLING, cont: 0 }) }
        } else {
            ResumablePoller { slot: None }
        }
    }

    /// First half of waiting for a wake on worker `wk`.
    pub fn wait<S: StackfulWorkerSystem>(&self, sched: &mut Scheduler<S>, wk: usize) -> (r:
        PollerWait) where <S::Desc as TaskDescCore>::Owned: HasCtx
        requires
            self.slot is Some ==> stackful_worker::can_suspend(*old(sched), wk as int),
        ensures
            match r {
                PollerWait::YieldBelow => self.slot is None && *final(sched) == *old(sched),
                PollerWait::Suspend(p) => self.slot is Some && picked_next(
                    *old(sched),
                    *final(sched),
                    wk as int,
                    p,
                ),
            },
    {
        if self.slot.is_some() {
            PollerWait::Suspend(sched.cond_suspend_to_sched(wk))
        } else {
            PollerWait::YieldBelow
        }
    }

    /// Ends the poll session: wakes that come later change nothing.
    pub fn close(&mut self)
        ensures
            match old(self).slot {
                Some(slot) => final(self).slot matches Some(after) && after.state == waker::IDLE
                    && after.cont == slot.cont,
                None => final(self).slot is None,
            },
    {
        if let Some(slot) = &mut self.slot {
            waker::mark_idle(&mut slot.state);
        }
    }
}

impl ResumablePollerSlot {
    /// Second half of a wait: the task that was left is kept in the slot. It
    /// parks, or, when a wake came in during the poll, goes on at once.
    pub fn wait_land<S: StackfulWorkerSystem>(
        &mut self,
        sched: &mut Scheduler<S>,
        wk: usize,
        prev: Context,
        next: SuspendedTaskToken,
    ) -> (r: CondTransfer) where <S::Desc as TaskDescCore>::Owned: HasCtx
        requires
            stackful_worker::can_leave(*old(sched), wk as int),
            old(sched).workers@[wk as int].deque.wf(),
            stackful_desc::is_stackful_at(old(sched).tasks@, next.ptr()),
            next.ptr() != old(sched).workers@[wk as int].running()->0,
            old(sched).tasks@[next.ptr()].payload.root() ==> old(
                sched,
            ).workers@[wk as int].root_cont is None,
        ensures
            final(self).cont == old(sched).workers@[wk as int].running()->0,
            final(self).state == waker::after_park(old(self).state),
            r == CondTransfer::of(wk, waker::park_commits(old(self).state)),
            waker::park_commits(old(self).state) ==> {
                &&& stackful_worker::runs_instead(
                    old(sched).workers@,
                    final(sched).workers@,
                    wk as int,
                    next.ptr(),
                )
                &&& final(sched).tasks@ == stackful_desc::with_ctx_at(
                    stackful_desc::with_ctx_at(old(sched).tasks@, final(self).cont, prev.0),
                    next.ptr(),
                    0,
                )
                &&& stackful_worker::same_but_workers_and_tasks(*old(sched), *final(sched))
            },
            !waker::park_commits(old(self).state) ==> exists|mid: Scheduler<S>|
                {
                    &&& stackful_worker::left_for(
                        *old(sched),
                        mid,
                        wk as int,
                        prev.0,
                        next.ptr(),
                    )
                    &&& #[trigger] stackful_worker::called_off(
                        mid,
                        *final(sched),
                        wk as int,
                        final(self).cont,
                    )
                },
    {
        proof {
            stackful_desc::lemma_ctx_at(
                sched.tasks@,
                sched.workers@[wk as int].running()->0,
                prev.0,
            );
        }
        let c = sched.cond_suspend_shim(wk, prev, next);
        let ghost mid = *sched;
        assert(mid.tasks@[next.ptr()] == old(sched).tasks@[next.ptr()]);
        self.cont = c.desc();
        if waker::decide_park(&mut self.state) {
            let _ = c.into_raw();
            sched.cond_suspend_finish(wk, None)
        } else {
            let transfer = sched.cond_suspend_finish(wk, Some(c));
            assert(stackful_worker::called_off(mid, *sched, wk as int, self.cont));
            transfer
        }
    }

    /// Wakes the task that waits, from worker `current` or from outside.
    pub fn wake_by_ref<S: SchedulerSystem>(
        &mut self,
        sched: &mut Scheduler<S>,
        current: Option<usize>,
    ) -> (r: WakeOutcome)
        requires
            old(sched).queues_wf(),
            current matches Some(wk) ==> wk < old(sched).workers@.len(),
            current is None && waker::wake_outcome(old(self).state) == WakeOutcome::ClaimedParked
                ==> old(sched).tasks@.dom().contains(old(self).cont) && old(sched).tasks@[old(
                self,
            ).cont].payload.spec_owned().spec_external_queue() != 0,
        ensures
            r == waker::wake_outcome(old(self).state),
            final(self).state == waker::after_wake(old(self).state),
            final(self).cont == old(self).cont,
            r == WakeOutcome::ClaimedParked ==> {
                &&& old(sched).delivered(*final(sched), current, old(self).cont)
                &&& final(sched).queues_wf()
                &&& final(sched).same_but_queues(*old(sched))
            },
            r != WakeOutcome::ClaimedParked ==> *final(sched) == *old(sched),
    {
        let outcome = waker::try_wake_state(&mut self.state);
        if let WakeOutcome::ClaimedParked = outcome {
            sched.push_continuation(current, SuspendedTaskToken::from_raw(self.cont));
        }
        outcome
    }
}

/// A wake word is one task's own: what is written there is read back there, and
/// changes no other task, nor the task's join word, its saved context or its
/// queue.
pub proof fn law_wake_word_is_one_tasks_own<D: WakerTaskDesc>(
    tasks: Map<usize, Node<D>>,
    p: usize,
    w: u64,
    q: usize,
)
    requires
        tasks.dom().contains(p),
    ensures
        with_wake_word_at(tasks, p, w)[p].payload.wake_word() == w,
        with_wake_word_at(tasks, p, w)[p].payload.word() == tasks[p].payload.word(),
        with_wake_word_at(tasks, p, w)[p].payload.spec_owned() == tasks[p].payload.spec_owned(),
        with_wake_word_at(tasks, p, w).dom() =~= tasks.dom(),
        q != p && tasks.dom().contains(q) ==> with_wake_word_at(tasks, p, w)[q] == tasks[q],
{
    tasks[p].payload.wake_word_is_separate(w);
}

/// A wait that may be called off leaves the context of the task that it would
/// switch to in place: the switch goes to that very context, and only the
/// worker that waits has changed.
pub proof fn law_target_of_a_wait_keeps_its_context<S: StackfulWorkerSystem>(
    a: Scheduler<S>,
    b: Scheduler<S>,
    wk: int,
    p: PendingSwitch,
) where <S::Desc as TaskDescCore>::Owned: HasCtx
    requires
        0 <= wk < a.workers@.len(),
        picked_next(a, b, wk, p),
    ensures
        p.to.0 == b.tasks@[p.next.ptr()].payload.spec_owned().spec_ctx(),
        p.next.ptr() == stackful_worker::pick_target(a.workers@[wk], a.tasks@),
        system::picked(a.workers@[wk], b.workers@[wk], a.tasks@, p.next.ptr()),
        b == (Scheduler::<S> { workers: b.workers, ..a }),
        b.workers@.len() == a.workers@.len(),
        forall|i: int|
            0 <= i < a.workers@.len() && i != wk ==> #[trigger] b.workers@[i] == a.workers@[i],
{
}

} // verus!
