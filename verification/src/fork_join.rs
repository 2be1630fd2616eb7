//! Fork-join: two branches, of which the second is offered to thieves while
//! the first runs.
//!
//! A branch is a job; the deques hold the names of jobs. A worker that comes
//! back from the first branch and finds the second on top of its own deque
//! runs it as an ordinary call. Otherwise a thief has it, and the worker helps
//! with other jobs until the job's latch is set. The threads of the workers
//! belong to the program around this library; a [`WorkerContext`] is what one
//! of them has at its hands.
use vstd::prelude::*;

use crate::resumable::common::deque;
use crate::resumable::common::deque::{
    worker_new_lifo, worker_pop, worker_push, worker_steal, Steal,
};

verus! {

// ---------------------------------------------------------------------------
// Latch and jobs
// ---------------------------------------------------------------------------

/// Tells the one who waits for a job that it is done.
pub struct Latch {
    done: bool,
}

impl Latch {
    /// Whether the job is done.
    pub closed spec fn is_set(&self) -> bool {
        self.done
    }

    /// The latch of a job that is not done.
    pub fn new() -> (r: Self)
        ensures
            !r.is_set(),
    {
        Latch { done: false }
    }

    /// Marks the job as done.
    pub fn set(&mut self)
        ensures
            final(self).is_set(),
    {
        self.done = true;
    }

    /// Whether the job is done.
    pub fn probe(&self) -> (r: bool)
        ensures
            r == self.is_set(),
    {
        self.done
    }
}

/// Whether `f` may be run on `before`, whatever it is lent.
pub open spec fn can_run<F: FnOnce(&mut X) -> R, R, X>(f: F, before: X) -> bool {
    forall|x: &mut X| *x == before ==> #[trigger] call_requires(f, (x,))
}

/// Whether some run of `f` may return `r`.
pub open spec fn may_return<F: FnOnce(&mut X) -> R, R, X>(f: F, r: R) -> bool {
    exists|x: &mut X| #[trigger] call_ensures(f, (x,), r)
}

/// The second branch of a fork, as a job. It is run by its owner or by a thief,
/// each on what it has at hand.
pub struct StackJob<F, R> {
    latch: Latch,
    func: Option<F>,
    result: Option<R>,
    made_of: Ghost<F>,
}

impl<F, R> StackJob<F, R> {
    /// The function, until the job has been run.
    pub closed spec fn function(&self) -> Option<F> {
        self.func
    }

    /// The function that the job was made of.
    pub closed spec fn made_of(&self) -> F {
        self.made_of@
    }

    /// The result, from when a thief ran the job until it is taken.
    pub closed spec fn outcome(&self) -> Option<R> {
        self.result
    }

    /// Whether a thief has run the job.
    pub closed spec fn is_done(&self) -> bool {
        self.latch.is_set()
    }

    /// The function is the one that the job was made of, and it is there only
    /// while nobody has run the job; a result is one of that function.
    pub open spec fn wf<X>(&self) -> bool where F: FnOnce(&mut X) -> R {
        &&& self.function() matches Some(f) ==> {
            f == self.made_of() && self.outcome() is None && !self.is_done()
        }
        &&& self.outcome() matches Some(r) ==> {
            self.is_done() && may_return::<F, R, X>(self.made_of(), r)
        }
    }

    /// Whether the job still owes its owner a result: it has not been run, or
    /// its result has not been taken.
    pub open spec fn is_owed<X>(&self) -> bool where F: FnOnce(&mut X) -> R {
        self.wf::<X>() && (self.function() is Some || self.outcome() is Some)
    }

    /// A job that has not been run.
    pub fn new(f: F) -> (r: Self)
        ensures
            r.function() == Some(f),
            r.made_of() == f,
            r.outcome() is None,
            !r.is_done(),
    {
        StackJob { latch: Latch::new(), func: Some(f), result: None, made_of: Ghost(f) }
    }

    /// Runs the job on behalf of its owner: the result is put away first, and
    /// then the latch is set. A job is run once.
    pub fn execute<X>(&mut self, x: &mut X) where F: FnOnce(&mut X) -> R
        requires
            old(self).wf::<X>(),
            old(self).function() is Some,
            can_run(old(self).made_of(), *old(x)),
        ensures
            final(self).wf::<X>(),
            final(self).made_of() == old(self).made_of(),
            final(self).function() is None,
            final(self).is_done(),
            final(self).outcome() is Some,
            exists|c: &mut X| #[trigger]
                call_ensures(old(self).made_of(), (c,), final(self).outcome()->0) && *c == *old(x)
                    && *final(c) == *final(x),
    {
        let f = self.func.take().unwrap();
        let r = f(x);
        self.result = Some(r);
        self.latch.set();
        assert(may_return::<F, R, X>(f, r));
    }

    /// Runs a job that nobody stole, without touching the latch.
    pub fn run_inline<X>(&mut self, x: &mut X) -> (r: R) where F: FnOnce(&mut X) -> R
        requires
            old(self).wf::<X>(),
            old(self).function() is Some,
            can_run(old(self).made_of(), *old(x)),
        ensures
            exists|c: &mut X| #[trigger]
                call_ensures(old(self).made_of(), (c,), r) && *c == *old(x)
                    && *final(c) == *final(x),
            final(self).wf::<X>(),
            final(self).made_of() == old(self).made_of(),
            final(self).function() is None,
            final(self).outcome() == old(self).outcome(),
            final(self).is_done() == old(self).is_done(),
    {
        let f = self.func.take().unwrap();
        let r = f(x);
        r
    }

    /// Whether a thief has run the job.
    pub fn probe(&self) -> (r: bool)
        ensures
            r == self.is_done(),
    {
        self.latch.probe()
    }

    /// Takes the result that a thief put away.
    pub fn take_result(&mut self) -> (r: R)
        requires
            old(self).outcome() is Some,
        ensures
            Some(r) == old(self).outcome(),
            final(self).outcome() is None,
            final(self).made_of() == old(self).made_of(),
            final(self).function() == old(self).function(),
            final(self).is_done() == old(self).is_done(),
    {
        self.result.take().unwrap()
    }

    /// The result of the second branch `own`, for the owner that popped
    /// `popped`: a job that came back is run here, and of one that was stolen,
    /// once it is done, the result is taken. Either way it is a result of the
    /// function that the job was made of.
    pub fn second_result<X>(&mut self, x: &mut X, popped: Option<usize>, own: usize) -> (r:
        R) where F: FnOnce(&mut X) -> R
        requires
            old(self).wf::<X>(),
            popped == Some(own) ==> old(self).function() is Some && can_run(
                old(self).made_of(),
                *old(x),
            ),
            popped != Some(own) ==> old(self).outcome() is Some,
        ensures
            may_return::<F, R, X>(old(self).made_of(), r),
            popped == Some(own) ==> exists|c: &mut X| #[trigger]
                call_ensures(old(self).made_of(), (c,), r) && *c == *old(x)
                    && *final(c) == *final(x),
            popped != Some(own) ==> Some(r) == old(self).outcome() && *final(x) == *old(x),
            final(self).made_of() == old(self).made_of(),
            final(self).function() is None,
            final(self).outcome() is None,
    {
        match after_first_branch(popped, own) {
            SecondBranch::RunInline => self.run_inline(x),
            SecondBranch::Help { put_back: _ } => self.take_result(),
        }
    }
}

// ---------------------------------------------------------------------------
// The outside injector
// ---------------------------------------------------------------------------

/// `crossbeam_deque::Injector`, opaque.
#[verifier::external_type_specification]
#[verifier::external_body]
#[verifier::reject_recursive_types(T)]
pub struct ExInjector<T>(crossbeam_deque::Injector<T>);

/// The items that a `crossbeam_deque::Injector` holds, oldest first.
pub uninterp spec fn injector_items(i: crossbeam_deque::Injector<usize>) -> Seq<usize>;

/// `crossbeam_deque::Injector::new`: an empty queue.
#[verifier::external_body]
fn injector_new() -> (r: crossbeam_deque::Injector<usize>)
    ensures
        injector_items(r) == Seq::<usize>::empty(),
{
    crossbeam_deque::Injector::new()
}

/// `crossbeam_deque::Injector::steal`: takes the oldest item. It reports empty
/// exactly when there is none, since no other handle to the queue is in use
/// during the call; it may ask for another attempt, and then it has taken
/// nothing.
#[verifier::external_body]
fn injector_steal(i: &mut crossbeam_deque::Injector<usize>) -> (r: Steal<usize>)
    ensures
        r is Empty == (injector_items(*old(i)).len() == 0),
        r is Success || injector_items(*final(i)) == injector_items(*old(i)),
        r matches Steal::Success(v) ==> v == injector_items(*old(i))[0] && injector_items(*final(i))
            == injector_items(*old(i)).drop_first(),
{
    match i.steal() {
        crossbeam_deque::Steal::Empty => Steal::Empty,
        crossbeam_deque::Steal::Success(v) => Steal::Success(v),
        crossbeam_deque::Steal::Retry => Steal::Retry,
    }
}

// ---------------------------------------------------------------------------
// Registry and worker context
// ---------------------------------------------------------------------------

/// What the deques of `n` workers hold when there are no jobs.
pub open spec fn no_jobs(n: nat) -> Seq<Seq<usize>> {
    Seq::new(n, |w: int| Seq::<usize>::empty())
}

/// The deques of all workers, and the queue for jobs from outside.
pub struct Registry {
    deques: Vec<crossbeam_deque::Worker<usize>>,
    injector: crossbeam_deque::Injector<usize>,
    shutdown: bool,
    forks: usize,
}

impl Registry {
    /// The jobs on each worker's deque, oldest first.
    pub closed spec fn jobs(&self) -> Seq<Seq<usize>> {
        Seq::new(self.deques@.len(), |w: int| deque::worker_items(self.deques@[w]))
    }

    /// The jobs from outside, oldest first.
    pub closed spec fn injected(&self) -> Seq<usize> {
        injector_items(self.injector)
    }

    /// Whether the workers are to leave.
    pub closed spec fn is_shut_down(&self) -> bool {
        self.shutdown
    }

    /// The name of the next job that is named by count.
    pub closed spec fn next_name(&self) -> usize {
        self.forks
    }

    /// Every worker pops the job it pushed last.
    pub closed spec fn wf(&self) -> bool {
        forall|w: int| 0 <= w < self.deques@.len() ==> deque::pops_newest(#[trigger] self.deques@[w])
    }

    /// A registry for `num_workers` workers without jobs.
    pub fn new(num_workers: usize) -> (r: Self)
        ensures
            r.wf(),
            r.jobs() == no_jobs(num_workers as nat),
            r.injected() == Seq::<usize>::empty(),
            !r.is_shut_down(),
            r.next_name() == 1,
    {
        let mut deques: Vec<crossbeam_deque::Worker<usize>> = Vec::new();
        for w in 0..num_workers
            invariant
                deques@.len() == w,
                forall|i: int| 0 <= i < w ==> deque::pops_newest(#[trigger] deques@[i]),
                forall|i: int|
                    0 <= i < w ==> deque::worker_items(#[trigger] deques@[i]) == Seq::<usize>::empty(),
        {
            deques.push(worker_new_lifo());
        }
        let r = Registry { deques, injector: injector_new(), shutdown: false, forks: 1 };
        assert(r.jobs() =~= no_jobs(num_workers as nat));
        r
    }

    /// Pushes a job onto a worker's own deque.
    pub fn push(&mut self, w: usize, job: usize)
        requires
            old(self).wf(),
            w < old(self).jobs().len(),
        ensures
            final(self).wf(),
            final(self).jobs() == old(self).jobs().update(
                w as int,
                old(self).jobs()[w as int].push(job),
            ),
            final(self).injected() == old(self).injected(),
            final(self).is_shut_down() == old(self).is_shut_down(),
            final(self).next_name() == old(self).next_name(),
    {
        worker_push(&mut self.deques[w], job);
        assert(self.jobs() =~= old(self).jobs().update(
            w as int,
            old(self).jobs()[w as int].push(job),
        ));
    }

    /// Pops the job that was pushed last onto a worker's own deque.
    pub fn pop(&mut self, w: usize) -> (r: Option<usize>)
        requires
            old(self).wf(),
            w < old(self).jobs().len(),
        ensures
            final(self).wf(),
            final(self).injected() == old(self).injected(),
            final(self).is_shut_down() == old(self).is_shut_down(),
            final(self).next_name() == old(self).next_name(),
            match r {
                Some(job) => {
                    &&& old(self).jobs()[w as int].len() > 0
                    &&& job == old(self).jobs()[w as int].last()
                    &&& final(self).jobs() == old(self).jobs().update(
                        w as int,
                        old(self).jobs()[w as int].drop_last(),
                    )
                },
                None => old(self).jobs()[w as int].len() == 0 && final(self).jobs() == old(
                    self,
                ).jobs(),
            },
    {
        let r = worker_pop(&mut self.deques[w]);
        match r {
            Some(job) => {
                assert(self.jobs() =~= old(self).jobs().update(
                    w as int,
                    old(self).jobs()[w as int].drop_last(),
                ));
            },
            None => {
                assert(self.jobs() =~= old(self).jobs());
            },
        }
        r
    }

    /// Tells the workers to leave.
    pub fn shut_down(&mut self)
        requires
            old(self).wf(),
        ensures
            final(self).wf(),
            final(self).jobs() == old(self).jobs(),
            final(self).injected() == old(self).injected(),
            final(self).is_shut_down(),
            final(self).next_name() == old(self).next_name(),
    {
        self.shutdown = true;
    }

    /// A name for a job: one more than the last, so that jobs that are on offer
    /// at the same time have different names.
    pub fn name_job(&mut self) -> (r: usize)
        requires
            old(self).wf(),
        ensures
            r == old(self).next_name(),
            final(self).wf(),
            final(self).next_name() == old(self).next_name().wrapping_add(1),
            final(self).jobs() == old(self).jobs(),
            final(self).injected() == old(self).injected(),
            final(self).is_shut_down() == old(self).is_shut_down(),
    {
        let name: usize = self.forks;
        self.forks = name.wrapping_add(1);
        name
    }
}

/// What one worker has at its hands.
pub struct WorkerContext {
    /// The worker's number.
    pub index: usize,
    /// What the workers share.
    pub registry: Registry,
}

/// The worker that worker `index` robs as its `off`th choice.
pub open spec fn robbed_at(index: usize, off: int, n: int) -> int {
    (index + off) % n
}

/// One attempt of a worker to find a job: its state `before` and `after`, and
/// what it got.
pub open spec fn took(before: WorkerContext, after: WorkerContext, r: Steal<usize>) -> bool {
    let w = before.index as int;
    let jobs = before.registry.jobs();
    let n = jobs.len() as int;
    let injected = before.registry.injected();
    &&& after.wf()
    &&& after.index == before.index
    &&& after.registry.is_shut_down() == before.registry.is_shut_down()
    &&& after.registry.next_name() == before.registry.next_name()
    &&& match r {
        Steal::Success(job) => {
            ||| {
                &&& jobs[w].len() > 0
                &&& job == jobs[w].last()
                &&& after.registry.jobs() == jobs.update(w, jobs[w].drop_last())
                &&& after.registry.injected() == injected
            }
            ||| exists|off: int|
                {
                    let v = #[trigger] robbed_at(before.index, off, n);
                    &&& 1 <= off < n
                    &&& before.nothing_before(off)
                    &&& jobs[v].len() > 0
                    &&& job == jobs[v][0]
                    &&& after.registry.jobs() == jobs.update(v, jobs[v].drop_first())
                    &&& after.registry.injected() == injected
                }
            ||| {
                &&& before.nothing_before(n)
                &&& injected.len() > 0
                &&& job == injected[0]
                &&& after.registry.jobs() == jobs
                &&& after.registry.injected() == injected.drop_first()
            }
        },
        Steal::Empty => {
            &&& before.nothing_before(n)
            &&& injected.len() == 0
            &&& after.registry.jobs() == jobs
            &&& after.registry.injected() == injected
        },
        Steal::Retry => {
            &&& before.missed_one()
            &&& after.registry.jobs() == jobs
            &&& after.registry.injected() == injected
        },
    }
}

/// Whether every deque is empty.
pub open spec fn no_job_on_any(jobs: Seq<Seq<usize>>) -> bool {
    forall|w: int| 0 <= w < jobs.len() ==> (#[trigger] jobs[w]).len() == 0
}

/// Whether a search that came to `r` overlooked nobody: it comes back empty only
/// when there is no job at all, and it turns to the jobs from outside only when
/// every deque is empty.
pub open spec fn overlooks_nobody(
    jobs: Seq<Seq<usize>>,
    injected: Seq<usize>,
    r: Steal<usize>,
) -> bool {
    &&& r is Empty <==> no_job_on_any(jobs) && injected.len() == 0
    &&& r is Retry ==> no_job_on_any(jobs) && injected.len() > 0
    &&& r matches Steal::Success(job) ==> if no_job_on_any(jobs) {
        injected.len() > 0 && job == injected[0]
    } else {
        exists|w: int|
            0 <= w < jobs.len() && (#[trigger] jobs[w]).len() > 0 && (job == jobs[w][0] || job
                == jobs[w].last())
    }
}

/// What a worker with nothing of its own to run does next.
#[derive(Clone, Copy, PartialEq, Eq, Structural, Debug)]
pub enum HelpStep {
    /// Run the job, and ask again.
    Run(usize),
    /// There is no job now: ask again.
    Spin,
    /// The wait is over.
    Done,
}

/// Whether thieves may have made `after` of the deque `before`: they take the
/// oldest jobs.
pub open spec fn only_robbed(before: Seq<usize>, after: Seq<usize>) -> bool {
    &&& after.len() <= before.len()
    &&& after == before.skip(before.len() - after.len())
}

impl WorkerContext {
    /// The worker is one of those in the registry.
    pub open spec fn wf(&self) -> bool {
        self.registry.wf() && self.index < self.registry.jobs().len()
    }

    /// The jobs on the worker's own deque, oldest first.
    pub open spec fn own(&self) -> Seq<usize> {
        self.registry.jobs()[self.index as int]
    }

    /// Whether `after` is what the worker may find after a branch: forks in it
    /// have taken back what they offered, and thieves may have taken the oldest
    /// jobs of its deque. On the other deques anything may have happened. Nobody
    /// tells the workers to leave meanwhile.
    pub open spec fn forked_to(&self, after: WorkerContext) -> bool {
        &&& after.wf()
        &&& after.index == self.index
        &&& after.registry.jobs().len() == self.registry.jobs().len()
        &&& only_robbed(self.own(), after.own())
        &&& after.registry.is_shut_down() == self.registry.is_shut_down()
    }

    /// Offers a job to thieves.
    pub fn offer(&mut self, job: usize)
        requires
            old(self).wf(),
        ensures
            final(self).wf(),
            final(self).index == old(self).index,
            final(self).registry.jobs() == old(self).offering(job),
            final(self).registry.jobs()[old(self).index as int] == old(
                self,
            ).registry.jobs()[old(self).index as int].push(job),
            final(self).registry.injected() == old(self).registry.injected(),
            final(self).registry.is_shut_down() == old(self).registry.is_shut_down(),
            final(self).registry.next_name() == old(self).registry.next_name(),
    {
        let w: usize = self.index;
        self.registry.push(w, job);
    }

    /// Takes the job `own` back, if it is the newest on the worker's deque. The
    /// newest, whichever it is, is named; another one than `own` stays.
    pub fn take_back(&mut self, own: usize) -> (popped: Option<usize>)
        requires
            old(self).wf(),
        ensures
            final(self).wf(),
            final(self).index == old(self).index,
            popped == (if old(self).own().len() > 0 {
                Some(old(self).own().last())
            } else {
                None
            }),
            final(self).registry.jobs() == (if popped == Some(own) {
                old(self).registry.jobs().update(
                    old(self).index as int,
                    old(self).own().drop_last(),
                )
            } else {
                old(self).registry.jobs()
            }),
            final(self).registry.injected() == old(self).registry.injected(),
            final(self).registry.is_shut_down() == old(self).registry.is_shut_down(),
            final(self).registry.next_name() == old(self).registry.next_name(),
    {
        let w: usize = self.index;
        let popped = self.registry.pop(w);
        match after_first_branch(popped, own) {
            SecondBranch::Help { put_back: Some(other) } => {
                self.registry.push(w, other);
                assert(old(self).own().drop_last().push(other) =~= old(self).own());
                assert(self.registry.jobs() =~= old(self).registry.jobs());
            },
            _ => {},
        }
        popped
    }

    /// Worker `index` is at work and has not been told to leave, or has,
    /// according to `leaving`; the deques hold `jobs`, and `injected` are the
    /// jobs from outside.
    pub open spec fn finds(
        &self,
        index: usize,
        jobs: Seq<Seq<usize>>,
        injected: Seq<usize>,
        leaving: bool,
    ) -> bool {
        &&& self.wf()
        &&& self.index == index
        &&& self.registry.jobs() == jobs
        &&& self.registry.injected() == injected
        &&& self.registry.is_shut_down() == leaving
    }

    /// The jobs on the deques once the worker has offered `job` on its own.
    pub open spec fn offering(&self, job: usize) -> Seq<Seq<usize>> {
        let jobs = self.registry.jobs();
        jobs.update(self.index as int, jobs[self.index as int].push(job))
    }

    /// Whether worker `index` finds nothing on its own deque nor on those of
    /// its first `off - 1` choices.
    pub open spec fn nothing_before(&self, off: int) -> bool {
        let jobs = self.registry.jobs();
        &&& jobs[self.index as int].len() == 0
        &&& forall|o: int|
            1 <= o < off ==> jobs[#[trigger] robbed_at(self.index, o, jobs.len() as int)].len() == 0
    }

    /// A worker that finds nothing on its own deque nor on those of all its
    /// choices has looked at every deque.
    proof fn lemma_everyone_is_robbed(&self)
        requires
            self.wf(),
        ensures
            self.nothing_before(self.registry.jobs().len() as int) <==> no_job_on_any(
                self.registry.jobs(),
            ),
            forall|off: int| 1 <= off < self.registry.jobs().len() ==> 0 <= #[trigger] robbed_at(
                self.index,
                off,
                self.registry.jobs().len() as int,
            ) < self.registry.jobs().len(),
    {
        let jobs = self.registry.jobs();
        let n = jobs.len() as int;
        assert forall|off: int| 1 <= off < n implies 0 <= #[trigger] robbed_at(
            self.index,
            off,
            n,
        ) < n by {
            vstd::arithmetic::div_mod::lemma_mod_bound(self.index + off, n);
        }
        if self.nothing_before(n) {
            assert forall|w: int| 0 <= w < n implies (#[trigger] jobs[w]).len() == 0 by {
                if w != self.index {
                    lemma_robbed_at_distance(self.index, w, n);
                    assert(jobs[robbed_at(self.index, (w - self.index) % n, n)].len() == 0);
                }
            }
        }
    }

    /// Whether there is a job from outside, and none on any deque.
    pub open spec fn missed_one(&self) -> bool {
        self.nothing_before(self.registry.jobs().len() as int) && self.registry.injected().len() > 0
    }

    /// The next job for this worker: the newest of its own deque, or else the
    /// oldest of the first other deque, counted on from its own, that has any,
    /// or else the oldest from outside. `Retry` means that there is a job from
    /// outside and that the attempt to take it failed: the call is to be
    /// repeated, and nothing was taken.
    pub fn try_execute_one(&mut self) -> (r: Steal<usize>)
        requires
            old(self).wf(),
        ensures
            took(*old(self), *final(self), r),
            overlooks_nobody(old(self).registry.jobs(), old(self).registry.injected(), r),
            old(self).registry.jobs()[old(self).index as int].len() > 0 ==> r == Steal::Success(
                old(self).registry.jobs()[old(self).index as int].last(),
            ),
    {
        proof {
            self.lemma_everyone_is_robbed();
        }
        if let Some(job) = self.registry.pop(self.index) {
            return Steal::Success(job);
        }
        let n: usize = self.registry.deques.len();
        let ghost jobs = self.registry.jobs();
        let start: usize = self.index;
        for off in 1..n
            invariant
                self.wf(),
                start == self.index,
                self.index == old(self).index,
                n == self.registry.deques@.len(),
                jobs == old(self).registry.jobs(),
                jobs.len() == n,
                self.registry.jobs() == jobs,
                self.registry.injected() == old(self).registry.injected(),
                self.registry.is_shut_down() == old(self).registry.is_shut_down(),
                self.registry.next_name() == old(self).registry.next_name(),
                old(self).nothing_before(off as int),
        {
            proof {
                lemma_robbed(start, off as int, n as int);
            }
            let i: usize = if off < n - start {
                start + off
            } else {
                off - (n - start)
            };
            assert(i == robbed_at(start, off as int, n as int));
            let ghost before = self.registry;
            assert(before.jobs()[i as int] == deque::worker_items(before.deques@[i as int]));
            match worker_steal(&mut self.registry.deques[i]) {
                Steal::Success(job) => {
                    assert(self.registry.jobs() =~= jobs.update(
                        i as int,
                        jobs[i as int].drop_first(),
                    ));
                    assert(robbed_at(old(self).index, off as int, n as int) == i);
                    return Steal::Success(job);
                },
                Steal::Empty => {
                    assert(self.registry.jobs() =~= jobs);
                },
                Steal::Retry => {
                    return Steal::Retry;
                },
            }
        }
        assert(old(self).nothing_before(n as int));
        let r = injector_steal(&mut self.registry.injector);
        assert(self.registry.jobs() =~= jobs);
        r
    }
}

impl WorkerContext {
    /// One step of waiting for a stolen branch: over when the latch is set,
    /// and help with another job until then.
    pub fn help_step(&mut self, latch: &Latch) -> (r: HelpStep)
        requires
            old(self).wf(),
        ensures
            r is Done == latch.is_set(),
            r is Done ==> *final(self) == *old(self),
            r matches HelpStep::Run(job) ==> took(*old(self), *final(self), Steal::Success(job)),
            r is Spin ==> took(*old(self), *final(self), Steal::Empty) || took(
                *old(self),
                *final(self),
                Steal::Retry,
            ),
            r is Spin ==> no_job_on_any(old(self).registry.jobs()),
    {
        if latch.probe() {
            return HelpStep::Done;
        }
        match self.try_execute_one() {
            Steal::Success(job) => HelpStep::Run(job),
            Steal::Empty => HelpStep::Spin,
            Steal::Retry => HelpStep::Spin,
        }
    }

    /// One step of a worker other than the first: it leaves when it finds no
    /// job anywhere and the workers were told to leave, so that none is left
    /// behind.
    pub fn worker_step(&mut self) -> (r: HelpStep)
        requires
            old(self).wf(),
        ensures
            r matches HelpStep::Run(job) ==> took(*old(self), *final(self), Steal::Success(job)),
            r is Spin ==> {
                ||| !old(self).registry.is_shut_down() && took(
                    *old(self),
                    *final(self),
                    Steal::Empty,
                )
                ||| took(*old(self), *final(self), Steal::Retry)
            },
            r is Done ==> old(self).registry.is_shut_down() && took(
                *old(self),
                *final(self),
                Steal::Empty,
            ),
            r is Spin || r is Done ==> no_job_on_any(old(self).registry.jobs()),
            r is Done <==> old(self).registry.is_shut_down() && no_job_on_any(
                old(self).registry.jobs(),
            ) && old(self).registry.injected().len() == 0,
    {
        match self.try_execute_one() {
            Steal::Success(job) => HelpStep::Run(job),
            Steal::Empty => if self.registry.shutdown {
                HelpStep::Done
            } else {
                HelpStep::Spin
            },
            Steal::Retry => HelpStep::Spin,
        }
    }
}

/// A search overlooks nobody, whatever the number of workers and whoever
/// searches. As long as any deque holds a job, the search comes back with one
/// from a deque: the newest of the worker's own, if there is any, and otherwise
/// the oldest of another. It takes a job from outside, or asks to be repeated,
/// only when every deque is empty, and comes back empty only when there is no
/// job from outside either.
pub proof fn law_search_overlooks_nobody(
    before: WorkerContext,
    after: WorkerContext,
    r: Steal<usize>,
    w: int,
)
    requires
        before.wf(),
        took(before, after, r),
        0 <= w < before.registry.jobs().len(),
    ensures
        before.registry.jobs()[w].len() > 0 ==> r is Success && after.registry.injected()
            == before.registry.injected(),
        r is Empty ==> before.registry.jobs()[w].len() == 0 && before.registry.injected().len()
            == 0,
        r is Retry ==> before.registry.jobs()[w].len() == 0 && before.registry.injected().len()
            > 0,
        after.registry.injected() != before.registry.injected() ==> before.registry.jobs()[w].len()
            == 0,
        before.registry.jobs()[before.index as int].len() > 0 ==> r == Steal::Success(
            before.registry.jobs()[before.index as int].last(),
        ),
{
    before.lemma_everyone_is_robbed();
    let o = (w - before.index as int) % before.registry.jobs().len() as int;
    if w != before.index {
        assert(1 <= o < before.registry.jobs().len() && robbed_at(
            before.index,
            o,
            before.registry.jobs().len() as int,
        ) == w) by {
            lemma_robbed_at_distance(before.index, w, before.registry.jobs().len() as int);
        }
    }
    if r is Success && before.registry.injected().len() > 0 {
        assert(before.registry.injected().drop_first().len() != before.registry.injected().len());
    }
}

/// A worker with nothing of its own robs the next one that has a job, counted on
/// from itself and around, and takes that one's oldest job: nobody in between has
/// any.
pub proof fn law_nearest_worker_is_robbed_first(
    before: WorkerContext,
    after: WorkerContext,
    job: usize,
    rich: int,
)
    requires
        before.wf(),
        took(before, after, Steal::Success(job)),
        before.registry.jobs()[before.index as int].len() == 0,
        0 <= rich < before.registry.jobs().len(),
        before.registry.jobs()[rich].len() > 0,
    ensures
        ({
            let a = before.registry.jobs();
            let b = after.registry.jobs();
            let me = before.index as int;
            exists|v: int|
                {
                    &&& 0 <= v < a.len()
                    &&& v != me
                    &&& a[v] == seq![job] + #[trigger] b[v]
                    &&& forall|w: int|
                        0 <= w < a.len() && (if me < v {
                            me < w < v
                        } else {
                            w > me || w < v
                        }) ==> (#[trigger] a[w]).len() == 0
                }
        }),
{
    let a = before.registry.jobs();
    let b = after.registry.jobs();
    let n = a.len() as int;
    let me = before.index as int;
    before.lemma_everyone_is_robbed();
    assert(!no_job_on_any(a));
    let off = choose|off: int|
        {
            let v = #[trigger] robbed_at(before.index, off, n);
            &&& 1 <= off < n
            &&& before.nothing_before(off)
            &&& a[v].len() > 0
            &&& job == a[v][0]
            &&& b == a.update(v, a[v].drop_first())
            &&& after.registry.injected() == before.registry.injected()
        };
    let v = robbed_at(before.index, off, n);
    lemma_robbed(before.index, off, n);
    assert(a[v] =~= seq![job] + b[v]);
    assert forall|w: int|
        0 <= w < a.len() && (if me < v {
            me < w < v
        } else {
            w > me || w < v
        }) implies (#[trigger] a[w]).len() == 0 by {
        let o = if w > me {
            w - me
        } else {
            w - me + n
        };
        lemma_robbed(before.index, o, n);
        assert(robbed_at(before.index, o, n) == w);
        assert(a[robbed_at(before.index, o, n)].len() == 0);
    }
}

/// The second branch of a fork is there for others while the first one runs: a
/// worker that finds what an offer leaves finds the job as the newest of the
/// deque that it was offered on, and every other deque as it was.
pub proof fn law_offered_job_can_be_stolen(
    before: WorkerContext,
    during: WorkerContext,
    job: usize,
    w: int,
)
    requires
        before.wf(),
        during.finds(
            before.index,
            before.offering(job),
            before.registry.injected(),
            before.registry.is_shut_down(),
        ),
        0 <= w < before.registry.jobs().len(),
    ensures
        during.index == before.index,
        during.registry.jobs().len() == before.registry.jobs().len(),
        w == before.index ==> during.registry.jobs()[w] == before.registry.jobs()[w].push(job),
        w != before.index ==> during.registry.jobs()[w] == before.registry.jobs()[w],
        during.registry.injected() == before.registry.injected(),
        during.registry.is_shut_down() == before.registry.is_shut_down(),
{
}

/// Thieves take the oldest jobs only, and a registry without jobs has none on
/// any deque.
pub proof fn law_only_the_oldest_are_robbed(
    before: Seq<usize>,
    after: Seq<usize>,
    i: int,
    n: nat,
    w: int,
)
    ensures
        only_robbed(before, after) && 0 <= i < after.len() ==> after.len() <= before.len()
            && after[i] == before[before.len() - after.len() + i],
        no_jobs(n).len() == n,
        0 <= w < n ==> no_jobs(n)[w].len() == 0,
{
}

/// A branch that comes back to its worker finds its worker: the same number, as
/// many workers, nobody told to leave meanwhile, and of the worker's own jobs the
/// newest.
pub proof fn law_branch_returns_to_its_worker(
    before: WorkerContext,
    after: WorkerContext,
    i: int,
)
    requires
        before.wf(),
        before.forked_to(after),
        0 <= i < after.registry.jobs()[before.index as int].len(),
    ensures
        after.index == before.index,
        after.registry.jobs().len() == before.registry.jobs().len(),
        after.registry.is_shut_down() == before.registry.is_shut_down(),
        ({
            let a = before.registry.jobs()[before.index as int];
            let b = after.registry.jobs()[before.index as int];
            b.len() <= a.len() && b[i] == a[a.len() - b.len() + i]
        }),
{
}

/// A job leaves exactly one place when it is taken, from one end, and nothing
/// else moves: the deque that it comes from is one shorter, and every other
/// deque is as it was.
pub proof fn law_taking_a_job_moves_nothing_else(
    before: WorkerContext,
    after: WorkerContext,
    job: usize,
)
    requires
        before.wf(),
        took(before, after, Steal::Success(job)),
    ensures
        ({
            let a = before.registry.jobs();
            let b = after.registry.jobs();
            &&& b.len() == a.len()
            &&& ({
                ||| {
                    &&& b == a
                    &&& before.registry.injected() == seq![job] + after.registry.injected()
                }
                ||| {
                    &&& after.registry.injected() == before.registry.injected()
                    &&& exists|w: int|
                        0 <= w < a.len() && (a[w] == seq![job] + #[trigger] b[w] && w
                            != before.index || a[w] == b[w].push(job) && w == before.index)
                            && forall|v: int|
                            0 <= v < a.len() && v != w ==> #[trigger] b[v] == a[v]
                }
            })
        }),
{
    let a = before.registry.jobs();
    let b = after.registry.jobs();
    let n = a.len() as int;
    let own = before.index as int;
    let injected = before.registry.injected();
    if a[own].len() > 0 && job == a[own].last() && b == a.update(own, a[own].drop_last()) {
        assert(a[own] =~= b[own].push(job));
        assert(forall|v: int| 0 <= v < a.len() && v != own ==> #[trigger] b[v] == a[v]);
    } else if b == a && injected.len() > 0 && after.registry.injected() == injected.drop_first() {
        assert(injected =~= seq![job] + after.registry.injected());
    } else {
        let off = choose|off: int|
            {
                let v = #[trigger] robbed_at(before.index, off, n);
                &&& 1 <= off < n
                &&& before.nothing_before(off)
                &&& a[v].len() > 0
                &&& job == a[v][0]
                &&& b == a.update(v, a[v].drop_first())
                &&& after.registry.injected() == injected
            };
        let v = robbed_at(before.index, off, n);
        lemma_robbed(before.index, off, n);
        assert(a[v] =~= seq![job] + b[v]);
        assert(forall|x: int| 0 <= x < a.len() && x != v ==> #[trigger] b[x] == a[x]);
    }
}

/// Every other worker is some choice of the worker that robs.
proof fn lemma_robbed_at_distance(index: usize, w: int, n: int)
    requires
        index < n,
        0 <= w < n,
        w != index,
    ensures
        1 <= (w - index) % n < n,
        robbed_at(index, (w - index) % n, n) == w,
{
    if w > index {
        vstd::arithmetic::div_mod::lemma_small_mod((w - index) as nat, n as nat);
        vstd::arithmetic::div_mod::lemma_small_mod(w as nat, n as nat);
    } else {
        vstd::arithmetic::div_mod::lemma_mod_add_multiples_vanish(w - index, n);
        vstd::arithmetic::div_mod::lemma_small_mod((w - index + n) as nat, n as nat);
        vstd::arithmetic::div_mod::lemma_mod_add_multiples_vanish(w, n);
        vstd::arithmetic::div_mod::lemma_small_mod(w as nat, n as nat);
    }
}

proof fn lemma_robbed(index: usize, off: int, n: int)
    requires
        index < n,
        1 <= off < n,
    ensures
        robbed_at(index, off, n) == (if index + off < n {
            index + off
        } else {
            index + off - n
        }),
{
    if index + off < n {
        vstd::arithmetic::div_mod::lemma_small_mod((index + off) as nat, n as nat);
    } else {
        vstd::arithmetic::div_mod::lemma_mod_sub_multiples_vanish(index + off, n);
        vstd::arithmetic::div_mod::lemma_small_mod((index + off - n) as nat, n as nat);
    }
}

// ---------------------------------------------------------------------------
// join and run
// ---------------------------------------------------------------------------

/// What a worker does about the second branch once it is back from the first.
#[derive(Clone, Copy, PartialEq, Eq, Structural, Debug)]
pub enum SecondBranch {
    /// Nobody stole it: run it here.
    RunInline,
    /// A thief has it: help with other jobs until its latch is set. A job that
    /// was popped instead goes back first.
    Help { put_back: Option<usize> },
}

/// What a worker that popped `popped` does about its second branch `own`.
pub open spec fn second_branch(popped: Option<usize>, own: usize) -> SecondBranch {
    if popped == Some(own) {
        SecondBranch::RunInline
    } else {
        SecondBranch::Help { put_back: popped }
    }
}

/// What a worker that popped `popped` does about its second branch `own`.
pub fn after_first_branch(popped: Option<usize>, own: usize) -> (r: SecondBranch)
    ensures
        r == second_branch(popped, own),
        r is RunInline <==> popped is Some && popped->0 == own,
        r matches SecondBranch::Help { put_back } ==> put_back == popped,
{
    match popped {
        Some(job) => if job == own {
            SecondBranch::RunInline
        } else {
            SecondBranch::Help { put_back: Some(job) }
        },
        None => SecondBranch::Help { put_back: None },
    }
}

/// What thieves leave of what thieves have left is what thieves may leave.
proof fn lemma_robbed_again(before: Seq<usize>, between: Seq<usize>, after: Seq<usize>)
    requires
        only_robbed(before, between),
        only_robbed(between, after),
    ensures
        only_robbed(before, after),
{
    assert(after =~= before.skip(before.len() - after.len()));
}

/// Whether `after` is what may become of the job `before` in other hands: it is
/// run at most once, and its result is left for its owner.
pub open spec fn handed_on<F: FnOnce(&mut WorkerContext) -> R, R>(
    before: StackJob<F, R>,
    after: StackJob<F, R>,
) -> bool {
    &&& after.is_owed::<WorkerContext>()
    &&& after.made_of() == before.made_of()
}

/// Runs both branches, each once, and returns their results, whether or not the
/// second one is stolen. It is on offer on the worker's deque while the first
/// one runs. What other workers do is up to them: `meanwhile` is what they have
/// done with the second branch when the first one is through, and `help` is what
/// happens until a second branch that was stolen is done. They run the second
/// branch only after they have taken it from the deque, and `help` ends with its
/// result; the worker takes part in it with [`WorkerContext::help_step`].
pub fn join<Fa, Fb, Ra, Rb, M, H>(
    ctx: &mut WorkerContext,
    a: Fa,
    b: Fb,
    meanwhile: M,
    help: H,
) -> (r: (Ra, Rb)) where
    Fa: FnOnce(&mut WorkerContext) -> Ra,
    Fb: FnOnce(&mut WorkerContext) -> Rb,
    M: FnOnce(&mut WorkerContext, &mut StackJob<Fb, Rb>),
    H: FnOnce(&mut WorkerContext, &mut StackJob<Fb, Rb>),

    requires
        old(ctx).wf(),
        forall|c: &mut WorkerContext| c.wf() ==> #[trigger] call_requires(a, (c,)),
        forall|c: &mut WorkerContext, x: Ra| #[trigger]
            call_ensures(a, (c,), x) && c.wf() ==> c.forked_to(*final(c)),
        forall|c: &mut WorkerContext| c.wf() ==> #[trigger] call_requires(b, (c,)),
        forall|c: &mut WorkerContext, x: Rb| #[trigger]
            call_ensures(b, (c,), x) && c.wf() ==> c.forked_to(*final(c)),
        forall|c: &mut WorkerContext, j: &mut StackJob<Fb, Rb>|
            c.wf() && j.is_owed::<WorkerContext>() && j.made_of() == b
                ==> #[trigger] call_requires(meanwhile, (c, j)),
        forall|c: &mut WorkerContext, j: &mut StackJob<Fb, Rb>| #[trigger]
            call_ensures(meanwhile, (c, j), ()) && c.wf() && j.is_owed::<WorkerContext>() ==> {
                &&& c.forked_to(*final(c))
                &&& handed_on(*j, *final(j))
                &&& j.function() is Some && final(c).own().len() > 0 ==> final(j).function() is Some
            },
        forall|c: &mut WorkerContext, j: &mut StackJob<Fb, Rb>|
            c.wf() && j.is_owed::<WorkerContext>() && j.made_of() == b
                ==> #[trigger] call_requires(help, (c, j)),
        forall|c: &mut WorkerContext, j: &mut StackJob<Fb, Rb>| #[trigger]
            call_ensures(help, (c, j), ()) && c.wf() && j.is_owed::<WorkerContext>() ==> {
                &&& c.forked_to(*final(c))
                &&& handed_on(*j, *final(j))
                &&& final(j).outcome() is Some
            },
    ensures
        old(ctx).forked_to(*final(ctx)),
        exists|c: &mut WorkerContext| #[trigger]
            call_ensures(a, (c,), r.0) && c.finds(
                old(ctx).index,
                old(ctx).offering(old(ctx).registry.next_name()),
                old(ctx).registry.injected(),
                old(ctx).registry.is_shut_down(),
            ),
        may_return::<Fb, Rb, WorkerContext>(b, r.1),
        exists|c: &mut WorkerContext| #[trigger] call_ensures(b, (c,), r.1),
{
    let ghost before = ctx.own();
    let ghost w = ctx.index as int;
    let name: usize = ctx.registry.name_job();
    let ghost offered = ctx.offering(name);
    let mut job = StackJob::new(b);
    ctx.offer(name);
    assert(ctx.own() == before.push(name));
    let ra = a(ctx);
    let ghost c_a = choose|c: &mut WorkerContext| #[trigger]
        call_ensures(a, (c,), ra) && c.finds(
            old(ctx).index,
            offered,
            old(ctx).registry.injected(),
            old(ctx).registry.is_shut_down(),
        );
    let ghost after_a = ctx.own();
    meanwhile(ctx, &mut job);
    let ghost left = ctx.own();
    proof {
        lemma_robbed_again(before.push(name), after_a, left);
    }
    let popped = ctx.take_back(name);
    assert(only_robbed(before, ctx.own()) && (popped == Some(name)) == (left.len() > 0)) by {
        let k = before.len() + 1 - left.len();
        if left.len() > 0 {
            assert(left.last() == name);
            assert(left.drop_last() =~= before.skip(k));
        } else {
            assert(left =~= before.skip(before.len() as int));
        }
    }
    let ghost taken_back = ctx.own();
    match after_first_branch(popped, name) {
        SecondBranch::Help { put_back: _ } => {
            help(ctx, &mut job);
            proof {
                lemma_robbed_again(before, taken_back, ctx.own());
            }
        },
        SecondBranch::RunInline => {},
    }
    let ghost helped = ctx.own();
    let rb = job.second_result(ctx, popped, name);
    proof {
        if popped == Some(name) {
            lemma_robbed_again(before, helped, ctx.own());
        }
    }
    let ghost c_b = choose|c: &mut WorkerContext| #[trigger] call_ensures(b, (c,), rb);
    let r = (ra, rb);
    assert(call_ensures(a, (c_a,), r.0));
    assert(call_ensures(b, (c_b,), r.1));
    r
}

/// Runs `f` as the root job of worker 0 among `num_workers` workers, and
/// returns its result, with what worker 0 has at its hands then. The workers
/// are told to leave when the job is done, and not before.
pub fn run_root<F, R>(num_workers: usize, f: F) -> (r: (R, WorkerContext)) where
    F: FnOnce(&mut WorkerContext) -> R,

    requires
        num_workers >= 1,
        forall|c: &mut WorkerContext| c.wf() ==> #[trigger] call_requires(f, (c,)),
        forall|c: &mut WorkerContext, x: R| #[trigger]
            call_ensures(f, (c,), x) && c.wf() ==> final(c).wf(),
    ensures
        exists|c: &mut WorkerContext| #[trigger]
            call_ensures(f, (c,), r.0) && c.finds(
                0,
                no_jobs(num_workers as nat),
                Seq::<usize>::empty(),
                false,
            ) && r.1.finds(
                final(c).index,
                final(c).registry.jobs(),
                final(c).registry.injected(),
                true,
            ),
{
    let mut ctx0 = WorkerContext { index: 0, registry: Registry::new(num_workers) };
    let ghost start = ctx0;
    let r = f(&mut ctx0);
    let ghost c = choose|c: &mut WorkerContext| #[trigger]
        call_ensures(f, (c,), r) && *c == start && *final(c) == ctx0;
    ctx0.registry.shut_down();
    let out = (r, ctx0);
    assert(call_ensures(f, (c,), out.0));
    out
}

/// Runs `f` as the root job of worker 0 among `num_workers` workers, and
/// returns its result. The workers are told to leave when it is done.
pub fn run<F, R>(num_workers: usize, f: F) -> (r: R) where F: FnOnce(&mut WorkerContext) -> R
    requires
        num_workers >= 1,
        forall|c: &mut WorkerContext| c.wf() ==> #[trigger] call_requires(f, (c,)),
        forall|c: &mut WorkerContext, x: R| #[trigger]
            call_ensures(f, (c,), x) && c.wf() ==> final(c).wf(),
    ensures
        exists|c: &mut WorkerContext| #[trigger]
            call_ensures(f, (c,), r) && c.finds(
                0,
                no_jobs(num_workers as nat),
                Seq::<usize>::empty(),
                false,
            ),
{
    let (r, _) = run_root(num_workers, f);
    r
}

} // verus!
