//! Workers: a run queue, the task that runs, and the worker's own loop.
use vstd::prelude::*;

use crate::interchange::PointerInterchangeable;
use crate::resumable::common::deque;
use crate::resumable::common::deque::{RunQueueStealer, Steal, WorkerRunQueue};
use crate::resumable::common::desc::{RunningTaskToken, SuspendedTaskToken};
use crate::resumable::common::lookup::CurrentLookup;
use crate::resumable::common::system::WorkerSystem;

verus! {

/// What a worker's own queue offers.
pub trait LocalQueue: Sized {
    /// The queued continuations in the order in which they run.
    spec fn order(&self) -> Seq<usize>;

    /// The queue's internal invariant.
    spec fn queue_wf(&self) -> bool;

    /// The worker's number.
    spec fn spec_num(&self) -> usize;

    /// Makes `c` the next continuation to run.
    fn push(&mut self, c: SuspendedTaskToken)
        requires
            old(self).queue_wf(),
        ensures
            final(self).queue_wf(),
            final(self).order() == seq![c.ptr()] + old(self).order(),
            final(self).spec_num() == old(self).spec_num(),
    ;

    /// Puts `c` behind everything that is queued.
    fn defer(&mut self, c: SuspendedTaskToken)
        requires
            old(self).queue_wf(),
        ensures
            final(self).queue_wf(),
            final(self).order() == old(self).order().push(c.ptr()),
            final(self).spec_num() == old(self).spec_num(),
    ;

    /// Takes the next continuation to run.
    fn try_pop(&mut self) -> (r: Option<SuspendedTaskToken>)
        requires
            old(self).queue_wf(),
        ensures
            final(self).queue_wf(),
            deque::opt_ptr(r) == deque::first_of(old(self).order()),
            final(self).order() == deque::rest_of(old(self).order()),
            final(self).spec_num() == old(self).spec_num(),
    ;

    /// The worker's number.
    fn num(&self) -> (r: usize)
        ensures
            r == self.spec_num(),
    ;
}

/// Finding the worker that the caller runs on.
pub trait WorkerOps: LocalQueue {
    /// The address of the current worker that `source` leads to, looked up as
    /// `L` does.
    fn current<L: CurrentLookup>(source: L::Source) -> (r: Option<usize>)
        ensures
            r == L::found(source),
    {
        L::current(source)
    }
}

/// What a worker knows of its tasks.
pub trait DescWorkerOps<S: WorkerSystem>: WorkerOps {
    /// The worker.
    spec fn worker_state(&self) -> UltWorker<S>;

    /// The address of the task that runs, or null.
    fn cur_task(&self) -> (r: usize)
        ensures
            r == (match self.worker_state().running() {
                Some(p) => p,
                None => 0,
            }),
    ;

    /// The polled task that is being polled, or null.
    fn polling_async(&self) -> (r: usize)
        ensures
            r == self.worker_state().polling_async,
    ;

    /// Records the polled task that is being polled.
    fn set_polling_async(&mut self, desc: usize)
        ensures
            final(self).worker_state() == (UltWorker::<S> {
                polling_async: desc,
                ..old(self).worker_state()
            }),
    ;

    /// Whether the polled task asked to be put behind the others; the request
    /// is forgotten.
    fn take_yield_requested(&mut self) -> (r: bool)
        ensures
            r == old(self).worker_state().yield_requested,
            final(self).worker_state() == (UltWorker::<S> {
                yield_requested: false,
                ..old(self).worker_state()
            }),
    ;

    /// Records the request of a polled task to be put behind the others.
    fn set_yield_requested(&mut self, v: bool)
        ensures
            final(self).worker_state() == (UltWorker::<S> {
                yield_requested: v,
                ..old(self).worker_state()
            }),
    ;
}

/// What spreads the first victims of different workers apart.
pub const STEAL_SEED_STEP: usize = 0x9E37_79B9;

/// One worker.
pub struct UltWorker<S: WorkerSystem> {
    /// The worker's number.
    pub num: usize,
    /// The continuations that are ready to run here.
    pub deque: S::RunQueue,
    /// The task that runs.
    pub cur_task: Option<RunningTaskToken>,
    /// The pseudo-descriptor of the worker's own loop.
    pub root_desc: usize,
    /// The worker's own loop, while a task runs.
    pub root_cont: Option<SuspendedTaskToken>,
    /// Where the next search for a victim starts.
    pub steal_seed: usize,
    /// The polled task that is being polled, or null.
    pub polling_async: usize,
    /// Whether the polled task asked to be put behind the others.
    pub yield_requested: bool,
}

impl<S: WorkerSystem> UltWorker<S> {
    /// Whether two workers differ at most in their queues.
    pub open spec fn same_but_queue(self, other: Self) -> bool {
        &&& self.num == other.num
        &&& self.cur_task == other.cur_task
        &&& self.root_desc == other.root_desc
        &&& self.root_cont == other.root_cont
        &&& self.steal_seed == other.steal_seed
        &&& self.polling_async == other.polling_async
        &&& self.yield_requested == other.yield_requested
    }

    /// The address of the task that runs.
    pub open spec fn running(self) -> Option<usize> {
        deque::opt_ptr(self.cur_task)
    }

    /// The address of the parked loop.
    pub open spec fn parked_loop(self) -> Option<usize> {
        deque::opt_ptr(self.root_cont)
    }

    /// A worker with an empty queue on which nothing runs.
    pub fn new(num: usize, root_desc: usize) -> (r: Self)
        ensures
            r.num == num,
            r.deque.wf(),
            r.deque.contents() == S::RunQueue::no_contents(),
            r.deque.order() == Seq::<usize>::empty(),
            r.cur_task is None,
            r.root_desc == root_desc,
            r.root_cont is None,
            r.steal_seed as int == (num as int * STEAL_SEED_STEP as int + 1) % (usize::MAX + 1),
            r.polling_async == 0,
            !r.yield_requested,
    {
        let product: usize = num.wrapping_mul(STEAL_SEED_STEP);
        let seed: usize = product.wrapping_add(1);
        proof {
            let m = usize::MAX + 1;
            let exact = num as int * STEAL_SEED_STEP as int;
            assert(product as int == exact % m);
            vstd::arithmetic::div_mod::lemma_add_mod_noop(exact, 1, m);
            vstd::arithmetic::div_mod::lemma_small_mod(1, m as nat);
            assert(seed as int == (product + 1) % m);
        }
        UltWorker {
            num,
            deque: S::RunQueue::new_queue(),
            cur_task: None,
            root_desc,
            root_cont: None,
            steal_seed: seed,
            polling_async: 0,
            yield_requested: false,
        }
    }

    /// The pseudo-descriptor of the worker's own loop.
    pub fn root_desc(&self) -> (r: usize)
        ensures
            r == self.root_desc,
    {
        self.root_desc
    }

    /// Takes the task that runs.
    pub fn take_cur_task(&mut self) -> (r: RunningTaskToken)
        requires
            old(self).cur_task is Some,
        ensures
            Some(r) == old(self).cur_task,
            *final(self) == (UltWorker::<S> { cur_task: None, ..*old(self) }),
    {
        self.cur_task.take().unwrap()
    }

    /// Makes `task` the task that runs, where none does.
    pub fn set_cur_task(&mut self, task: RunningTaskToken)
        requires
            old(self).cur_task is None,
        ensures
            *final(self) == (UltWorker::<S> { cur_task: Some(task), ..*old(self) }),
    {
        self.cur_task = Some(task);
    }

    /// Takes the worker's own loop, which has to be parked.
    pub fn take_root_cont(&mut self) -> (r: SuspendedTaskToken)
        requires
            old(self).root_cont is Some,
        ensures
            Some(r) == old(self).root_cont,
            *final(self) == (UltWorker::<S> { root_cont: None, ..*old(self) }),
    {
        self.root_cont.take().unwrap()
    }

}

impl<S: WorkerSystem> LocalQueue for UltWorker<S> {
    open spec fn order(&self) -> Seq<usize> {
        self.deque.order()
    }

    open spec fn queue_wf(&self) -> bool {
        self.deque.wf()
    }

    open spec fn spec_num(&self) -> usize {
        self.num
    }

    fn push(&mut self, c: SuspendedTaskToken)
        ensures
            final(self).same_but_queue(*old(self)),
            final(self).deque.contents() == S::RunQueue::after_push(
                old(self).deque.contents(),
                c.ptr(),
            ),
    {
        self.deque.push(c);
    }

    fn defer(&mut self, c: SuspendedTaskToken)
        ensures
            final(self).same_but_queue(*old(self)),
            final(self).deque.contents() == S::RunQueue::after_defer(
                old(self).deque.contents(),
                c.ptr(),
            ),
    {
        self.deque.defer(c);
    }

    fn try_pop(&mut self) -> (r: Option<SuspendedTaskToken>)
        ensures
            final(self).same_but_queue(*old(self)),
            final(self).deque.contents() == S::RunQueue::after_pop(old(self).deque.contents()),
            r is None ==> deque::same_queue::<SuspendedTaskToken, S::RunQueue>(
                old(self).deque,
                final(self).deque,
            ),
    {
        self.deque.try_pop()
    }

    fn num(&self) -> (r: usize) {
        self.num
    }
}

impl<S: WorkerSystem> WorkerOps for UltWorker<S> {

}

impl<S: WorkerSystem> DescWorkerOps<S> for UltWorker<S> {
    open spec fn worker_state(&self) -> UltWorker<S> {
        *self
    }

    fn cur_task(&self) -> (r: usize) {
        match &self.cur_task {
            Some(t) => t.desc(),
            None => 0,
        }
    }

    fn polling_async(&self) -> (r: usize) {
        self.polling_async
    }

    fn set_polling_async(&mut self, desc: usize) {
        self.polling_async = desc;
    }

    fn take_yield_requested(&mut self) -> (r: bool) {
        let r = self.yield_requested;
        self.yield_requested = false;
        r
    }

    fn set_yield_requested(&mut self, v: bool) {
        self.yield_requested = v;
    }
}

// ---------------------------------------------------------------------------
// Stealing
// ---------------------------------------------------------------------------

/// The `i`th worker that a search starting at `seed` looks at.
pub open spec fn victim_at(seed: usize, i: int, n: int) -> int {
    (seed + i) % n
}

/// Whether a steal from this worker's queue may come back without an item.
pub open spec fn may_miss<S: WorkerSystem>(w: UltWorker<S>) -> bool {
    w.deque.order().len() == 0 || w.deque.may_retry()
}

/// Whether two sets of workers differ at most in unobservable queue state and
/// in where worker `me` searches next.
pub open spec fn same_workers<S: WorkerSystem>(
    a: Seq<UltWorker<S>>,
    b: Seq<UltWorker<S>>,
    me: int,
    seed: usize,
) -> bool {
    &&& a.len() == b.len()
    &&& forall|i: int| #![trigger a[i]] #![trigger b[i]]
        0 <= i < a.len() ==> {
            &&& deque::same_queue::<SuspendedTaskToken, S::RunQueue>(a[i].deque, b[i].deque)
            &&& b[i].same_but_queue(
                if i == me {
                    UltWorker { steal_seed: seed, ..a[i] }
                } else {
                    a[i]
                },
            )
        }
}

/// Whether worker `b` is worker `a` after one continuation was stolen from it.
pub open spec fn robbed<S: WorkerSystem>(a: UltWorker<S>, b: UltWorker<S>, c: usize) -> bool {
    &&& a.deque.order().len() > 0
    &&& c == a.deque.order()[a.deque.steal_at()]
    &&& b.deque.order() == a.deque.order().remove(a.deque.steal_at())
    &&& b.deque.contents() == S::RunQueue::after_steal(a.deque.contents())
    &&& b.deque.wf()
    &&& b.same_but_queue(a)
}

/// Whether `b` is `a` after worker `me`, searching from its seed, stole `c` as
/// the `k`th try: every worker it looked at before had nothing that it could
/// take.
pub open spec fn stolen_at<S: WorkerSystem>(
    a: Seq<UltWorker<S>>,
    b: Seq<UltWorker<S>>,
    me: int,
    c: usize,
    k: int,
) -> bool {
    let n = a.len() as int;
    let seed = a[me].steal_seed;
    let v = victim_at(seed, k, n);
    let next = seed.wrapping_add(1);
    &&& 0 <= k < n
    &&& v != me
    &&& b.len() == n
    &&& forall|j: int|
        0 <= j < k && #[trigger] victim_at(seed, j, n) != me ==> may_miss(a[victim_at(seed, j, n)])
    &&& robbed(a[v], b[v], c)
    &&& forall|i: int| #![trigger a[i]] #![trigger b[i]]
        0 <= i < n && i != v ==> {
            &&& deque::same_queue::<SuspendedTaskToken, S::RunQueue>(a[i].deque, b[i].deque)
            &&& b[i].same_but_queue(
                if i == me {
                    UltWorker { steal_seed: next, ..a[i] }
                } else {
                    a[i]
                },
            )
        }
}

proof fn lemma_victim(seed: usize, start: usize, i: usize, n: usize)
    requires
        n > 0,
        i < n,
        start == seed % n,
    ensures
        victim_at(seed, i as int, n as int) == (if start + i < n {
            start + i
        } else {
            start + i - n
        }),
{
    let s = seed as int;
    let m = n as int;
    vstd::arithmetic::div_mod::lemma_add_mod_noop(s, i as int, m);
    vstd::arithmetic::div_mod::lemma_small_mod(i as nat, n as nat);
    if start + i < n {
        vstd::arithmetic::div_mod::lemma_small_mod((start + i) as nat, n as nat);
    } else {
        vstd::arithmetic::div_mod::lemma_mod_sub_multiples_vanish(start + i, m);
        vstd::arithmetic::div_mod::lemma_small_mod((start + i - n) as nat, n as nat);
    }
}

/// A search looks at every other worker exactly once.
pub proof fn law_search_looks_at_everyone(seed: usize, n: usize, w: int)
    requires
        n > 0,
        0 <= w < n,
    ensures
        exists|i: int| 0 <= i < n && #[trigger] victim_at(seed, i, n as int) == w,
        forall|i: int, j: int|
            0 <= i < j < n ==> #[trigger] victim_at(seed, i, n as int) != #[trigger] victim_at(
                seed,
                j,
                n as int,
            ),
{
    let start = (seed % n) as usize;
    vstd::arithmetic::div_mod::lemma_mod_bound(seed as int, n as int);
    let i = if w >= start {
        w - start
    } else {
        w - start + n
    };
    lemma_victim(seed, start, i as usize, n);
    assert(victim_at(seed, i, n as int) == w);
    assert forall|i: int, j: int| 0 <= i < j < n implies #[trigger] victim_at(seed, i, n as int)
        != #[trigger] victim_at(seed, j, n as int) by {
        lemma_victim(seed, start, i as usize, n);
        lemma_victim(seed, start, j as usize, n);
    }
}

/// Two workers that differ at most in their queues agree on everything else, and
/// the task that runs and the loop that is parked are known by their addresses.
pub proof fn law_same_but_queue<S: WorkerSystem>(a: UltWorker<S>, b: UltWorker<S>)
    ensures
        a.same_but_queue(b) <==> a == (UltWorker::<S> { deque: a.deque, ..b }),
        a.running() is Some <==> a.cur_task is Some,
        a.cur_task matches Some(t) ==> a.running() == Some(t.ptr()),
        a.parked_loop() is Some <==> a.root_cont is Some,
        a.root_cont matches Some(t) ==> a.parked_loop() == Some(t.ptr()),
{
}

/// A theft takes one continuation from one other worker, and nothing else moves:
/// the worker that is robbed had it, and is one shorter; every other queue holds
/// what it held; and no worker changes but in its queue and, for the thief, in
/// where it searches next.
pub proof fn law_theft_takes_from_one_other_worker<S: WorkerSystem>(
    a: Seq<UltWorker<S>>,
    b: Seq<UltWorker<S>>,
    me: int,
    c: usize,
    k: int,
)
    requires
        0 <= me < a.len(),
        forall|i: int| 0 <= i < a.len() ==> (#[trigger] a[i]).deque.wf(),
        stolen_at(a, b, me, c, k),
    ensures
        b.len() == a.len(),
        exists|v: int| #![trigger a[v]]
            {
                &&& 0 <= v < a.len()
                &&& v != me
                &&& a[v].deque.order().contains(c)
                &&& a[v].deque.order().to_multiset() == b[v].deque.order().to_multiset().insert(c)
                &&& b[v].deque.order().len() + 1 == a[v].deque.order().len()
                &&& forall|i: int|
                    0 <= i < a.len() && i != v ==> (#[trigger] b[i]).deque.order()
                        == a[i].deque.order()
            },
        forall|i: int|
            0 <= i < a.len() ==> (#[trigger] b[i]) == (UltWorker::<S> {
                deque: b[i].deque,
                steal_seed: if i == me {
                    a[me].steal_seed.wrapping_add(1)
                } else {
                    a[i].steal_seed
                },
                ..a[i]
            }),
{
    let n = a.len() as int;
    let v = victim_at(a[me].steal_seed, k, n);
    vstd::arithmetic::div_mod::lemma_mod_bound(a[me].steal_seed + k, n);
    a[v].deque.steal_at_in_range();
    deque::law_taking_conserves_items(a[v].deque.order(), a[v].deque.steal_at());
    assert(a[v].deque.order()[a[v].deque.steal_at()] == c);
    assert forall|i: int| 0 <= i < n && i != v implies (#[trigger] b[i]).deque.order()
        == a[i].deque.order() by {
        assert(deque::same_queue::<SuspendedTaskToken, S::RunQueue>(a[i].deque, b[i].deque));
    }
    assert forall|i: int| 0 <= i < n implies (#[trigger] b[i]) == (UltWorker::<S> {
        deque: b[i].deque,
        steal_seed: if i == me {
            a[me].steal_seed.wrapping_add(1)
        } else {
            a[i].steal_seed
        },
        ..a[i]
    }) by {
        if i != v {
            assert(deque::same_queue::<SuspendedTaskToken, S::RunQueue>(a[i].deque, b[i].deque));
        }
    }
}

/// A theft looks at the other workers in turn, from where the thief's search
/// starts, and passes by none that it could have robbed: whoever lies between
/// that start and the victim had nothing, or could not be robbed this time.
pub proof fn law_theft_passes_nobody_by<S: WorkerSystem>(
    a: Seq<UltWorker<S>>,
    b: Seq<UltWorker<S>>,
    me: int,
    c: usize,
    k: int,
    j: int,
)
    requires
        0 <= me < a.len(),
        stolen_at(a, b, me, c, k),
        0 <= j < k,
        (a[me].steal_seed + j) % (a.len() as int) != me,
    ensures
        ({
            let w = a[(a[me].steal_seed + j) % (a.len() as int)];
            w.deque.order().len() == 0 || w.deque.may_retry()
        }),
        a[(a[me].steal_seed + k) % (a.len() as int)].deque.order().len() > 0,
{
    assert(victim_at(a[me].steal_seed, j, a.len() as int) != me);
}

/// A search that found nothing changes nothing but where the worker searches
/// next.
pub proof fn law_fruitless_search_leaves_queues_alone<S: WorkerSystem>(
    a: Seq<UltWorker<S>>,
    b: Seq<UltWorker<S>>,
    me: int,
    seed: usize,
    i: int,
)
    requires
        same_workers(a, b, me, seed),
        0 <= i < a.len(),
    ensures
        b.len() == a.len(),
        b[i].deque.order() == a[i].deque.order(),
        b[i].deque.contents() == a[i].deque.contents(),
        b[i].deque.wf() == a[i].deque.wf(),
        b[i] == (UltWorker::<S> {
            deque: b[i].deque,
            steal_seed: if i == me {
                seed
            } else {
                a[i].steal_seed
            },
            ..a[i]
        }),
{
    assert(deque::same_queue::<SuspendedTaskToken, S::RunQueue>(a[i].deque, b[i].deque));
}

/// Looks for work in the other workers' queues, starting at a place that moves
/// on with every search.
pub fn try_steal<S: WorkerSystem>(workers: &mut Vec<UltWorker<S>>, me: usize) -> (r: Steal<
    SuspendedTaskToken,
>)
    requires
        me < old(workers)@.len(),
        forall|i: int| 0 <= i < old(workers)@.len() ==> (#[trigger] old(workers)@[i]).deque.wf(),
    ensures
        final(workers)@.len() == old(workers)@.len(),
        forall|i: int|
            0 <= i < final(workers)@.len() ==> (#[trigger] final(workers)@[i]).deque.wf(),
        old(workers)@.len() == 1 ==> r is Empty && final(workers)@ == old(workers)@,
        old(workers)@.len() > 1 ==> match r {
            Steal::Success(c) => exists|k: int| #[trigger]
                stolen_at(old(workers)@, final(workers)@, me as int, c.ptr(), k),
            Steal::Empty => {
                &&& same_workers(
                    old(workers)@,
                    final(workers)@,
                    me as int,
                    old(workers)@[me as int].steal_seed.wrapping_add(1),
                )
                &&& forall|i: int|
                    0 <= i < old(workers)@.len() && i != me ==> (
                    #[trigger] old(workers)@[i]).deque.order().len() == 0
            },
            Steal::Retry => {
                &&& same_workers(
                    old(workers)@,
                    final(workers)@,
                    me as int,
                    old(workers)@[me as int].steal_seed.wrapping_add(1),
                )
                &&& forall|i: int|
                    0 <= i < old(workers)@.len() && i != me ==> may_miss(
                        #[trigger] old(workers)@[i],
                    )
                &&& forall|i: int|
                    0 <= i < old(workers)@.len() && i != me ==> (
                    #[trigger] old(workers)@[i]).deque.order().len() == 0
                        || old(workers)@[i].deque.may_retry()
                &&& exists|i: int|
                    0 <= i < old(workers)@.len() && i != me && (
                    #[trigger] old(workers)@[i]).deque.order().len() > 0
            },
        },
{
    let n: usize = workers.len();
    if n <= 1 {
        return Steal::Empty;
    }
    let ghost before = workers@;
    let seed: usize = workers[me].steal_seed;
    let next: usize = seed.wrapping_add(1);
    workers[me].steal_seed = next;
    let start: usize = seed % n;
    let mut saw_retry = false;
    assert(same_workers(before, workers@, me as int, next));
    for i in 0..n
        invariant
            before == old(workers)@,
            n == before.len(),
            n > 1,
            me < n,
            workers@.len() == n,
            seed == before[me as int].steal_seed,
            next == seed.wrapping_add(1),
            start == seed % n,
            start < n,
            forall|j: int| 0 <= j < n ==> (#[trigger] before[j]).deque.wf(),
            same_workers(before, workers@, me as int, next),
            forall|j: int|
                0 <= j < i && #[trigger] victim_at(seed, j, n as int) != me ==> may_miss(
                    before[victim_at(seed, j, n as int)],
                ),
            !saw_retry ==> forall|j: int|
                0 <= j < i && #[trigger] victim_at(seed, j, n as int) != me ==> before[victim_at(
                    seed,
                    j,
                    n as int,
                )].deque.order().len() == 0,
            saw_retry ==> exists|j: int|
                0 <= j < n && j != me && (#[trigger] before[j]).deque.order().len() > 0,
    {
        proof {
            lemma_victim(seed, start, i, n);
        }
        let victim: usize = if i < n - start {
            start + i
        } else {
            i - (n - start)
        };
        assert(victim == victim_at(seed, i as int, n as int));
        if victim != me {
            let ghost pre = workers@;
            assert(deque::same_queue::<SuspendedTaskToken, S::RunQueue>(
                before[victim as int].deque,
                pre[victim as int].deque,
            ));
            match S::Stealer::try_steal(&mut workers[victim].deque) {
                Steal::Success(c) => {
                    proof {
                        pre[victim as int].deque.steal_at_in_range();
                        assert(robbed(
                            before[victim as int],
                            workers@[victim as int],
                            c.ptr(),
                        ));
                        assert forall|j: int|
                            #![trigger before[j]]
                            #![trigger workers@[j]]
                            0 <= j < n && j != victim implies {
                            &&& deque::same_queue::<SuspendedTaskToken, S::RunQueue>(
                                before[j].deque,
                                workers@[j].deque,
                            )
                            &&& workers@[j].same_but_queue(
                                if j == me {
                                    UltWorker { steal_seed: next, ..before[j] }
                                } else {
                                    before[j]
                                },
                            )
                        } by {
                            assert(workers@[j] == pre[j]);
                            assert(deque::same_queue::<SuspendedTaskToken, S::RunQueue>(
                                before[j].deque,
                                pre[j].deque,
                            ));
                        }
                        assert(stolen_at(before, workers@, me as int, c.ptr(), i as int));
                    }
                    return Steal::Success(c);
                },
                Steal::Retry => {
                    saw_retry = true;
                    assert(before[victim as int].deque.order().len() > 0);
                },
                Steal::Empty => {},
            }
        }
    }
    proof {
        assert forall|w: int| 0 <= w < n && w != me implies may_miss(#[trigger] before[w]) by {
            law_search_looks_at_everyone(seed, n, w);
            let j = choose|j: int| 0 <= j < n && #[trigger] victim_at(seed, j, n as int) == w;
            assert(may_miss(before[victim_at(seed, j, n as int)]));
        }
        if !saw_retry {
            assert forall|w: int| 0 <= w < n && w != me implies (
            #[trigger] before[w]).deque.order().len() == 0 by {
                law_search_looks_at_everyone(seed, n, w);
                let j = choose|j: int| 0 <= j < n && #[trigger] victim_at(seed, j, n as int) == w;
                assert(before[victim_at(seed, j, n as int)].deque.order().len() == 0);
            }
        }
    }
    if saw_retry {
        Steal::Retry
    } else {
        Steal::Empty
    }
}

/// Every search begins one worker further than the one before it, whether or not
/// it came back with something, so that no worker is always the first to be
/// robbed. Nobody else's place changes.
pub proof fn law_searches_begin_further_on<S: WorkerSystem>(
    a: Seq<UltWorker<S>>,
    b: Seq<UltWorker<S>>,
    me: int,
    c: usize,
    k: int,
    other: int,
)
    requires
        0 <= me < a.len(),
        0 <= other < a.len(),
        stolen_at(a, b, me, c, k) || same_workers(a, b, me, a[me].steal_seed.wrapping_add(1)),
    ensures
        a[me].steal_seed < usize::MAX ==> b[me].steal_seed == a[me].steal_seed + 1,
        a[me].steal_seed == usize::MAX ==> b[me].steal_seed == 0,
        other != me ==> b[other].steal_seed == a[other].steal_seed,
{
    if stolen_at(a, b, me, c, k) {
        let v = victim_at(a[me].steal_seed, k, a.len() as int);
        vstd::arithmetic::div_mod::lemma_mod_bound(a[me].steal_seed + k, a.len() as int);
        assert(b[v].same_but_queue(a[v]));
    }
    assert(b[me].same_but_queue(UltWorker { steal_seed: b[me].steal_seed, ..a[me] }));
}

} // verus!
