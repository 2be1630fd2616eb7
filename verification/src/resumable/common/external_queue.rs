//! How continuations that outside threads wake reach the workers.
//!
//! [`StealPathQueue`] is drained by workers that found nothing else to run.
//! [`PollerUltQueue`] is drained by a service task of its own.
use vstd::prelude::*;

use crate::interchange::PointerInterchangeable;
use crate::resumable::common::deque;
use crate::resumable::common::desc::SuspendedTaskToken;

verus! {

/// The producer's side: all that an outside thread needs to hand a
/// continuation over.
pub trait ExternalWakeQueue: Sized {
    /// What is queued, oldest first.
    spec fn items(&self) -> Seq<usize>;

    /// The queue's internal invariant.
    spec fn wf(&self) -> bool;

    /// Whether the service was asked to return.
    spec fn stopped(&self) -> bool;

    /// Hands a continuation over.
    fn push(&mut self, cont: SuspendedTaskToken)
        requires
            old(self).wf(),
        ensures
            final(self).wf(),
            final(self).items() == old(self).items().push(cont.ptr()),
            final(self).stopped() == old(self).stopped(),
    ;
}

/// What a service does after it has drained its queue.
#[derive(Clone, Copy, PartialEq, Eq, Structural, Debug)]
pub enum ServiceStep {
    /// It lets other tasks run and comes back.
    YieldAndRepeat,
    /// It returns.
    Return,
}

/// The consumer's side.
pub trait ExternalQueue: ExternalWakeQueue {
    /// Whether workers drain the queue themselves.
    spec fn drained_by_workers() -> bool;

    /// An empty queue whose service, if it has one, goes on.
    fn new_queue() -> (r: Self)
        ensures
            r.wf(),
            r.items() == Seq::<usize>::empty(),
            !r.stopped(),
    ;

    /// Takes one continuation, for a worker that found nothing else: the one
    /// handed over last, where workers drain the queue.
    fn try_pop(&mut self) -> (r: Option<SuspendedTaskToken>)
        requires
            old(self).wf(),
        ensures
            final(self).wf(),
            final(self).stopped() == old(self).stopped(),
            Self::drained_by_workers() && old(self).items().len() > 0 ==> deque::opt_ptr(r) == Some(
                old(self).items().last(),
            ) && final(self).items() == old(self).items().drop_last(),
            !(Self::drained_by_workers() && old(self).items().len() > 0) ==> r is None
                && final(self).items() == old(self).items(),
    ;

    /// Whether the queue needs a service task.
    fn needs_service() -> (r: bool)
        ensures
            r == !Self::drained_by_workers(),
    ;

    /// One pass of the service: hands out all that is queued, oldest first,
    /// and then looks whether it was asked to return, so that what was handed
    /// over before that request is still delivered.
    fn run_service(&mut self) -> (r: (Vec<SuspendedTaskToken>, ServiceStep))
        requires
            old(self).wf(),
        ensures
            final(self).wf(),
            final(self).stopped() == old(self).stopped(),
            Self::drained_by_workers() ==> r.0@.len() == 0 && r.1 == ServiceStep::Return
                && final(self).items() == old(self).items(),
            !Self::drained_by_workers() ==> {
                &&& final(self).items() == Seq::<usize>::empty()
                &&& r.0@.len() == old(self).items().len()
                &&& forall|i: int|
                    0 <= i < r.0@.len() ==> (#[trigger] r.0@[i]).ptr() == old(self).items()[i]
                &&& r.1 == (if old(self).stopped() {
                    ServiceStep::Return
                } else {
                    ServiceStep::YieldAndRepeat
                })
            },
    ;

    /// Asks the service to return.
    fn stop_service(&mut self)
        requires
            old(self).wf(),
        ensures
            final(self).wf(),
            final(self).items() == old(self).items(),
            !Self::drained_by_workers() ==> final(self).stopped(),
            Self::drained_by_workers() ==> final(self).stopped() == old(self).stopped(),
    ;
}

/// Drained by workers that found nothing else. The flag lets them skip the
/// list without locking it.
pub struct StealPathQueue {
    non_empty: bool,
    inner: Vec<usize>,
}

impl ExternalWakeQueue for StealPathQueue {
    closed spec fn items(&self) -> Seq<usize> {
        self.inner@
    }

    /// The flag tells the truth.
    closed spec fn wf(&self) -> bool {
        self.non_empty == (self.inner@.len() > 0)
    }

    open spec fn stopped(&self) -> bool {
        false
    }

    fn push(&mut self, cont: SuspendedTaskToken) {
        self.inner.push(cont.into_raw());
        self.non_empty = true;
    }
}

impl ExternalQueue for StealPathQueue {
    open spec fn drained_by_workers() -> bool {
        true
    }

    fn new_queue() -> (r: Self) {
        StealPathQueue { non_empty: false, inner: Vec::new() }
    }

    fn try_pop(&mut self) -> (r: Option<SuspendedTaskToken>) {
        if !self.non_empty {
            return None;
        }
        let item = self.inner.pop();
        if self.inner.len() == 0 {
            self.non_empty = false;
        }
        match item {
            Some(p) => Some(SuspendedTaskToken::from_raw(p)),
            None => None,
        }
    }

    fn needs_service() -> (r: bool) {
        false
    }

    fn run_service(&mut self) -> (r: (Vec<SuspendedTaskToken>, ServiceStep)) {
        (Vec::new(), ServiceStep::Return)
    }

    fn stop_service(&mut self) {
    }
}

/// Drained by a service task, so that workers never look at it.
pub struct PollerUltQueue {
    inner: Vec<usize>,
    stop: bool,
}

impl ExternalWakeQueue for PollerUltQueue {
    closed spec fn items(&self) -> Seq<usize> {
        self.inner@
    }

    open spec fn wf(&self) -> bool {
        true
    }

    closed spec fn stopped(&self) -> bool {
        self.stop
    }

    fn push(&mut self, cont: SuspendedTaskToken) {
        self.inner.push(cont.into_raw());
    }
}

impl ExternalQueue for PollerUltQueue {
    open spec fn drained_by_workers() -> bool {
        false
    }

    fn new_queue() -> (r: Self) {
        PollerUltQueue { inner: Vec::new(), stop: false }
    }

    fn try_pop(&mut self) -> (r: Option<SuspendedTaskToken>) {
        None
    }

    fn needs_service() -> (r: bool) {
        true
    }

    fn run_service(&mut self) -> (r: (Vec<SuspendedTaskToken>, ServiceStep)) {
        let mut pending: Vec<usize> = Vec::new();
        std::mem::swap(&mut pending, &mut self.inner);
        let n: usize = pending.len();
        let mut out: Vec<SuspendedTaskToken> = Vec::new();
        for i in 0..n
            invariant
                n == pending@.len(),
                out@.len() == i,
                forall|j: int| 0 <= j < i ==> (#[trigger] out@[j]).ptr() == pending@[j],
        {
            out.push(SuspendedTaskToken::from_raw(pending[i]));
        }
        if self.stop {
            (out, ServiceStep::Return)
        } else {
            (out, ServiceStep::YieldAndRepeat)
        }
    }

    fn stop_service(&mut self) {
        self.stop = true;
    }
}

/// Outside wakes are drained by one side only: by the workers that found nothing
/// else, and then there is no service to stop, or by a service, and then no
/// worker looks.
pub proof fn law_one_side_drains_each_queue(q: StealPathQueue)
    ensures
        StealPathQueue::drained_by_workers(),
        !PollerUltQueue::drained_by_workers(),
        !q.stopped(),
{
}

} // verus!
