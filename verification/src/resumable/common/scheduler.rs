//! The scheduler: the workers, what they share, and what an idle worker does
//! next.
use vstd::multiset::Multiset;
use vstd::prelude::*;

use crate::interchange::PointerInterchangeable;
use crate::resumable::common::deque;
use crate::resumable::common::deque::{Steal, WorkerRunQueue};
use crate::resumable::common::desc::{
    HasExternalQueue, RunningTaskToken, SuspendedTaskToken, TaskDescAlloc, TaskDescCore,
};
use crate::resumable::common::external_queue::{ExternalQueue, ExternalWakeQueue, ServiceStep};
use crate::resumable::common::layout::Layout;
use crate::resumable::common::pool::{
    Block, DescPool, DescPoolModel, DynamicPool, DynamicPoolModel, Node, PoolNode,
};
use crate::resumable::common::stack::StackMem;
use crate::resumable::common::system::{PoolSystem, ReclaimableDesc, SchedulerSystem};
use crate::resumable::common::table::{TaskTable, MAX_LIVE_TASKS};
use crate::resumable::common::worker::{try_steal, LocalQueue, UltWorker};

verus! {

/// The workers and what they share.
pub struct Scheduler<S: SchedulerSystem> {
    pub workers: Vec<UltWorker<S>>,
    pub finished: bool,
    pub external_queue: S::ExternalQueue,
    pub stack_size: usize,
    pub task_pool: S::Pool,
    pub async_task_pool: S::AsyncPool,
    pub recursion_pool: S::RecursionPool,
    pub tasks: TaskTable<S::Desc>,
}

/// The alignment of recursion frames.
pub const RECURSION_ALIGN: usize = 16;

/// The largest recursion frame that is pooled.
pub open spec fn recursion_threshold<S: PoolSystem>() -> Layout {
    Layout { size: S::spec_async_pool_size(), align: RECURSION_ALIGN }
}

/// The largest recursion frame that is pooled.
pub fn recursion_pool_threshold<S: PoolSystem>() -> (r: Layout)
    ensures
        r == recursion_threshold::<S>(),
{
    Layout { size: S::async_pool_size(), align: RECURSION_ALIGN }
}

/// What an idle worker does next.
pub enum IdleStep {
    /// The scheduler is finished: leave the loop.
    Exit,
    /// Run this continuation.
    Run(SuspendedTaskToken),
    /// Look again at once.
    Spin,
    /// Let the thread below run, then look again.
    Yield,
}

/// How many fruitless rounds an idle worker makes before it yields.
pub const IDLE_ROUNDS_PER_YIELD: u32 = 64;

/// Whether nothing is queued and nothing runs on a worker whose own loop has
/// its pseudo-descriptor among `tasks`.
pub open spec fn is_idle_worker<S: SchedulerSystem>(
    w: UltWorker<S>,
    tasks: Map<usize, Node<S::Desc>>,
) -> bool {
    &&& w.deque.contents() == S::RunQueue::no_contents()
    &&& w.deque.order() == Seq::<usize>::empty()
    &&& w.cur_task is None
    &&& w.root_cont is None
    &&& w.polling_async == 0
    &&& !w.yield_requested
    &&& tasks.dom().contains(w.root_desc)
    &&& tasks[w.root_desc] == (Node {
        alloc_wk: w.num,
        oversized: true,
        payload: S::Desc::fresh_root(),
    })
    &&& tasks[w.root_desc].payload.root()
}

/// The contents of a worker's queue once `items` were deferred, one after the
/// other.
pub open spec fn after_defers<S: SchedulerSystem>(
    c: <S::RunQueue as WorkerRunQueue<SuspendedTaskToken>>::Contents,
    items: Seq<usize>,
) -> <S::RunQueue as WorkerRunQueue<SuspendedTaskToken>>::Contents
    decreases items.len(),
{
    if items.len() == 0 {
        c
    } else {
        S::RunQueue::after_defer(after_defers::<S>(c, items.drop_last()), items.last())
    }
}

impl<S: SchedulerSystem> Scheduler<S> {
    /// Every queue is intact and every worker knows its number.
    pub open spec fn queues_wf(&self) -> bool {
        &&& self.external_queue.wf()
        &&& forall|w: int| 0 <= w < self.workers@.len() ==> (#[trigger] self.workers@[w]).deque.wf()
        &&& forall|w: int| 0 <= w < self.workers@.len() ==> (#[trigger] self.workers@[w]).num == w
    }

    /// The pools are intact and serve these workers.
    pub open spec fn pools_wf(&self) -> bool {
        &&& self.tasks.wf()
        &&& forall|p: usize|
            self.tasks@.dom().contains(p) ==> (#[trigger] self.tasks@[p]).home()
                < self.workers@.len()
        &&& self.task_pool.wf()
        &&& self.task_pool.num_workers() == self.workers@.len()
        &&& self.async_task_pool.wf()
        &&& self.async_task_pool.num_workers() == self.workers@.len()
        &&& self.recursion_pool.wf()
        &&& self.recursion_pool.num_workers() == self.workers@.len()
    }

    /// What each worker has queued, in the order in which it runs.
    pub open spec fn orders(&self) -> Seq<Seq<usize>> {
        Seq::new(self.workers@.len(), |w: int| self.workers@[w].deque.order())
    }

    /// All continuations that are ready to run.
    pub open spec fn ready(&self) -> Multiset<usize> {
        crate::resumable::common::pool::bag(self.orders()).add(
            self.external_queue.items().to_multiset(),
        )
    }

    /// Whether two schedulers differ at most in their workers and in what the
    /// queue of outside wakes holds.
    pub open spec fn same_but_queues(self, other: Self) -> bool {
        &&& self.finished == other.finished
        &&& self.stack_size == other.stack_size
        &&& self.task_pool == other.task_pool
        &&& self.async_task_pool == other.async_task_pool
        &&& self.recursion_pool == other.recursion_pool
        &&& self.tasks == other.tasks
        &&& self.external_queue.stopped() == other.external_queue.stopped()
    }

    /// Whether `b` is this scheduler after worker `wk` popped `c` from its own
    /// queue.
    pub open spec fn popped_own(self, b: Self, wk: int, c: usize) -> bool {
        &&& deque::first_of(self.workers@[wk].deque.order()) == Some(c)
        &&& b.workers@.len() == self.workers@.len()
        &&& b.workers@[wk].deque.order() == deque::rest_of(self.workers@[wk].deque.order())
        &&& b.workers@[wk].deque.contents() == S::RunQueue::after_pop(
            self.workers@[wk].deque.contents(),
        )
        &&& b.workers@[wk].same_but_queue(self.workers@[wk])
        &&& forall|i: int|
            0 <= i < self.workers@.len() && i != wk ==> #[trigger] b.workers@[i]
                == self.workers@[i]
        &&& b.external_queue == self.external_queue
    }

    /// Whether `b` is this scheduler after worker `wk` stole `c`.
    pub open spec fn stole(self, b: Self, wk: int, c: usize) -> bool {
        &&& self.workers@.len() > 1
        &&& exists|k: int| #[trigger]
            crate::resumable::common::worker::stolen_at(self.workers@, b.workers@, wk, c, k)
        &&& b.external_queue == self.external_queue
    }

    /// Whether a search of worker `wk` through the other queues may come back
    /// without a continuation.
    pub open spec fn search_may_miss(self, wk: int) -> bool {
        forall|i: int|
            0 <= i < self.workers@.len() && i != wk
                ==> crate::resumable::common::worker::may_miss(#[trigger] self.workers@[i])
    }

    /// Whether a search of worker `wk` through the other queues finds them all
    /// empty.
    pub open spec fn search_is_empty(self, wk: int) -> bool {
        forall|i: int|
            0 <= i < self.workers@.len() && i != wk ==> (
            #[trigger] self.workers@[i]).deque.order().len() == 0
    }

    /// Whether `b` has the workers of this scheduler after a search of worker
    /// `wk` that found nothing.
    pub open spec fn searched(self, b: Self, wk: int) -> bool {
        crate::resumable::common::worker::same_workers(
            self.workers@,
            b.workers@,
            wk,
            if self.workers@.len() > 1 {
                self.workers@[wk].steal_seed.wrapping_add(1)
            } else {
                self.workers@[wk].steal_seed
            },
        )
    }

    /// Whether `b` has the workers and the queue of outside wakes of this
    /// scheduler after the continuation `c` was made ready by worker
    /// `current`, or from outside.
    pub open spec fn delivered(self, b: Self, current: Option<usize>, c: usize) -> bool {
        match current {
            Some(wk) => {
                &&& b.external_queue == self.external_queue
                &&& b.orders() == self.orders().update(
                    wk as int,
                    seq![c] + self.orders()[wk as int],
                )
                &&& b.workers@[wk as int].deque.contents() == S::RunQueue::after_push(
                    self.workers@[wk as int].deque.contents(),
                    c,
                )
                &&& b.workers@.len() == self.workers@.len()
                &&& forall|i: int|
                    0 <= i < self.workers@.len() ==> (#[trigger] b.workers@[i]).same_but_queue(
                        self.workers@[i],
                    )
                &&& forall|i: int|
                    0 <= i < self.workers@.len() && i != wk ==> #[trigger] b.workers@[i]
                        == self.workers@[i]
            },
            None => {
                &&& b.workers == self.workers
                &&& b.external_queue.items() == self.external_queue.items().push(c)
                &&& b.external_queue.stopped() == self.external_queue.stopped()
            },
        }
    }

    /// Whether `b` is this scheduler after worker `wk` gave the descriptor at
    /// `desc` back to the pool that it came from, and `freed` was handed out
    /// to be freed.
    pub open spec fn reclaimed(
        self,
        b: Self,
        wk: usize,
        desc: usize,
        freed: Option<Node<S::Desc>>,
    ) -> bool {
        &&& b.pools_wf()
        &&& b.tasks.has_room()
        &&& b.tasks@ == self.tasks@.remove(desc)
        &&& if self.tasks@[desc].payload.is_pooled_async() {
            &&& b.task_pool == self.task_pool
            &&& crate::resumable::common::pool::node_returned(
                self.async_task_pool,
                b.async_task_pool,
                wk,
                self.tasks@[desc],
                freed,
            )
        } else {
            &&& b.async_task_pool == self.async_task_pool
            &&& crate::resumable::common::pool::node_returned(
                self.task_pool,
                b.task_pool,
                wk,
                self.tasks@[desc],
                freed,
            )
        }
        &&& b.workers == self.workers
        &&& b.finished == self.finished
        &&& b.external_queue == self.external_queue
        &&& b.stack_size == self.stack_size
        &&& b.recursion_pool == self.recursion_pool
    }

    /// Whether an idle worker finds something in the queue of outside wakes.
    pub open spec fn external_ready(self) -> bool {
        S::ExternalQueue::drained_by_workers() && self.external_queue.items().len() > 0
    }

    /// What a pass of the service of the queue of outside wakes takes from it.
    pub open spec fn to_serve(self) -> Seq<usize> {
        if S::ExternalQueue::drained_by_workers() {
            Seq::empty()
        } else {
            self.external_queue.items()
        }
    }

    /// Whether `b` is this scheduler after a pass of that service, which runs
    /// on worker `current`.
    pub open spec fn served(self, b: Self, current: Option<usize>) -> bool {
        &&& b.external_queue.items() == (if S::ExternalQueue::drained_by_workers() {
            self.external_queue.items()
        } else {
            Seq::empty()
        })
        &&& match current {
            Some(wk) => {
                &&& b.workers@ == self.workers@.update(wk as int, b.workers@[wk as int])
                &&& b.workers@[wk as int].same_but_queue(self.workers@[wk as int])
                &&& b.workers@[wk as int].deque.order() == self.workers@[wk as int].deque.order()
                    + self.to_serve()
                &&& b.workers@[wk as int].deque.contents() == after_defers::<S>(
                    self.workers@[wk as int].deque.contents(),
                    self.to_serve(),
                )
            },
            None => b.workers == self.workers,
        }
    }

    /// A scheduler of `num_workers` idle workers.
    pub fn new(num_workers: usize, stack_size: usize) -> (r: Self)
        requires
            1 <= num_workers <= MAX_LIVE_TASKS,
            S::Pool::valid_config(),
            S::AsyncPool::valid_config(),
            recursion_threshold::<S>().wf(),
            S::RecursionPool::valid_config(recursion_threshold::<S>()),
        ensures
            r.queues_wf(),
            r.pools_wf(),
            r.workers@.len() == num_workers,
            !r.finished,
            r.stack_size == stack_size,
            r.external_queue.items() == Seq::<usize>::empty(),
            !r.external_queue.stopped(),
            r.task_pool.pooled() == Multiset::<Node<S::Desc>>::empty(),
            r.task_pool.contents() == S::Pool::no_nodes(num_workers as nat),
            r.task_pool.slot_size() == stack_size,
            r.async_task_pool.pooled() == Multiset::<Node<S::Desc>>::empty(),
            r.async_task_pool.contents() == S::AsyncPool::no_nodes(num_workers as nat),
            r.async_task_pool.slot_size() == S::spec_async_pool_size(),
            r.recursion_pool.pooled() == Multiset::<Block>::empty(),
            r.recursion_pool.contents() == S::RecursionPool::no_blocks(num_workers as nat),
            r.recursion_pool.threshold() == recursion_threshold::<S>(),
            r.tasks@.dom().len() == num_workers,
            forall|w: int| 0 <= w < num_workers ==> (#[trigger] r.workers@[w]).num == w,
            forall|w: int| 0 <= w < num_workers ==> is_idle_worker(#[trigger] r.workers@[w], r.tasks@),
            forall|v: int, w: int|
                0 <= v < w < num_workers ==> (#[trigger] r.workers@[v]).root_desc != (
                #[trigger] r.workers@[w]).root_desc,
    {
        let mut workers: Vec<UltWorker<S>> = Vec::new();
        let mut tasks: TaskTable<S::Desc> = TaskTable::new();
        for w in 0..num_workers
            invariant
                num_workers <= MAX_LIVE_TASKS,
                tasks.wf(),
                tasks@.dom().finite(),
                tasks@.dom().len() == w,
                workers@.len() == w,
                forall|i: int| 0 <= i < w ==> (#[trigger] workers@[i]).num == i,
                forall|i: int| 0 <= i < w ==> (#[trigger] workers@[i]).deque.wf(),
                forall|i: int| 0 <= i < w ==> is_idle_worker(#[trigger] workers@[i], tasks@),
                forall|p: usize|
                    tasks@.dom().contains(p) ==> (#[trigger] tasks@[p]).home() < num_workers,
                forall|u: int, v: int|
                    0 <= u < v < w ==> (#[trigger] workers@[u]).root_desc != (
                    #[trigger] workers@[v]).root_desc,
        {
            let ghost before = tasks@;
            proof {
                S::Desc::fresh_root().lifecycle(StackMem::NoStack, false);
            }
            let root: usize = tasks.insert(Node::wrap_fresh(w, true, S::Desc::new_root()));
            workers.push(UltWorker::new(w, root));
            assert(tasks@.dom() =~= before.dom().insert(root));
            assert forall|i: int| 0 <= i < w + 1 implies is_idle_worker(
                #[trigger] workers@[i],
                tasks@,
            ) by {
                if i < w {
                    assert(is_idle_worker(workers@[i], before));
                }
            }
        }
        Scheduler {
            workers,
            finished: false,
            external_queue: S::ExternalQueue::new_queue(),
            stack_size,
            task_pool: S::Pool::new_pool(num_workers, stack_size),
            async_task_pool: S::AsyncPool::new_pool(num_workers, S::async_pool_size()),
            recursion_pool: S::RecursionPool::new_pool(
                num_workers,
                recursion_pool_threshold::<S>(),
            ),
            tasks,
        }
    }

    /// Begins a worker's own loop: it is the task that runs there.
    pub fn worker_loop(&mut self, wk: usize)
        requires
            wk < old(self).workers@.len(),
            old(self).workers@[wk as int].cur_task is None,
        ensures
            final(self).workers@.len() == old(self).workers@.len(),
            final(self).workers@[wk as int].running() == Some(
                old(self).workers@[wk as int].root_desc,
            ),
            final(self).workers@ == old(self).workers@.update(
                wk as int,
                UltWorker {
                    cur_task: final(self).workers@[wk as int].cur_task,
                    ..old(self).workers@[wk as int]
                },
            ),
            final(self).external_queue == old(self).external_queue,
            final(self).same_but_queues(*old(self)),
    {
        let root: usize = self.workers[wk].root_desc();
        self.workers[wk].set_cur_task(RunningTaskToken::from_raw(root));
    }

    /// Gives a descriptor back to the pool that it came from.
    pub fn reclaim(&mut self, wk: usize, desc: usize) -> (r: Option<Node<S::Desc>>)
        requires
            old(self).pools_wf(),
            wk < old(self).workers@.len(),
            old(self).tasks@.dom().contains(desc),
            !old(self).tasks@[desc].payload.root(),
        ensures
            old(self).reclaimed(*final(self), wk, desc, r),
    {
        if self.tasks.get(desc).payload.reclaim_to_async() {
            self.free_async_task(wk, desc)
        } else {
            self.free_task(wk, desc)
        }
    }

    /// Wakes a continuation: onto the queue of the worker that the caller runs
    /// on, or else, from outside, onto the queue of outside wakes. A task that
    /// may be woken from outside knows that queue.
    pub fn push_continuation(&mut self, current: Option<usize>, token: SuspendedTaskToken)
        requires
            old(self).queues_wf(),
            current matches Some(wk) ==> wk < old(self).workers@.len(),
            current is None ==> old(self).tasks@.dom().contains(token.ptr()) && old(
                self,
            ).tasks@[token.ptr()].payload.spec_owned().spec_external_queue() != 0,
        ensures
            final(self).queues_wf(),
            final(self).same_but_queues(*old(self)),
            old(self).delivered(*final(self), current, token.ptr()),
            final(self).ready() == old(self).ready().insert(token.ptr()),
            current matches Some(wk) ==> final(self).workers@[wk as int].deque.order() == seq![
                token.ptr(),
            ] + old(self).workers@[wk as int].deque.order(),
            current is None ==> final(self).external_queue.items() == old(
                self,
            ).external_queue.items().push(token.ptr()),
    {
        let ghost c = token.ptr();
        match current {
            Some(wk) => {
                self.workers[wk].push(token);
                assert(self.orders() =~= old(self).orders().update(
                    wk as int,
                    seq![token.ptr()] + old(self).orders()[wk as int],
                ));
            },
            None => {
                self.external_queue.push(token);
            },
        }
        proof {
            law_no_wake_is_lost(*old(self), *self, current, c);
        }
    }

    /// One round of an idle worker: its own queue, the other queues, the queue
    /// of outside wakes. A round that found every queue empty counts towards a
    /// yield; a round in which a continuation was there but could not be taken
    /// does not.
    pub fn worker_idle_step(&mut self, wk: usize, idle_rounds: &mut u32) -> (r: IdleStep)
        requires
            old(self).queues_wf(),
            wk < old(self).workers@.len(),
        ensures
            final(self).queues_wf(),
            final(self).same_but_queues(*old(self)),
            r is Exit <==> old(self).finished,
            r matches IdleStep::Run(c) ==> old(self).ready() == final(self).ready().insert(c.ptr()),
            !old(self).finished && old(self).workers@[wk as int].deque.order().len() > 0 ==> {
                &&& r matches IdleStep::Run(c) && c.ptr() == old(
                    self,
                ).workers@[wk as int].deque.order()[0]
            },
            r is Spin || r is Yield ==> {
                &&& final(self).ready() == old(self).ready()
                &&& old(self).workers@[wk as int].deque.order().len() == 0
                &&& forall|i: int|
                    0 <= i < old(self).workers@.len() && i != wk ==> (
                    #[trigger] old(self).workers@[i]).deque.order().len() == 0
                        || old(self).workers@[i].deque.may_retry()
                &&& S::ExternalQueue::drained_by_workers() ==> old(
                    self,
                ).external_queue.items().len() == 0
            },
            old(self).finished ==> r is Exit && *final(self) == *old(self) && *final(idle_rounds)
                == *old(idle_rounds),
            !old(self).finished ==> match r {
                IdleStep::Exit => false,
                IdleStep::Run(c) => {
                    &&& *final(idle_rounds) == 0
                    &&& if old(self).workers@[wk as int].deque.order().len() > 0 {
                        old(self).popped_own(*final(self), wk as int, c.ptr())
                    } else {
                        ||| old(self).stole(*final(self), wk as int, c.ptr())
                        ||| {
                            &&& old(self).search_may_miss(wk as int)
                            &&& old(self).searched(*final(self), wk as int)
                            &&& old(self).external_ready()
                            &&& c.ptr() == old(self).external_queue.items().last()
                            &&& final(self).external_queue.items() == old(
                                self,
                            ).external_queue.items().drop_last()
                        }
                    }
                },
                IdleStep::Spin | IdleStep::Yield => {
                    &&& old(self).workers@[wk as int].deque.order().len() == 0
                    &&& old(self).search_may_miss(wk as int)
                    &&& old(self).searched(*final(self), wk as int)
                    &&& !old(self).external_ready()
                    &&& final(self).external_queue.items() == old(self).external_queue.items()
                    &&& if old(self).search_is_empty(wk as int) {
                        &&& *final(idle_rounds) == (*old(idle_rounds)).wrapping_add(1)
                        &&& r is Yield == (*final(idle_rounds) % IDLE_ROUNDS_PER_YIELD == 0)
                        &&& r is Yield <==> *final(idle_rounds) % 64 == 0
                    } else {
                        &&& *final(idle_rounds) == *old(idle_rounds)
                        &&& r is Spin
                    }
                },
            },
    {
        if self.finished {
            return IdleStep::Exit;
        }
        let ghost before = *self;
        if let Some(c) = self.workers[wk].try_pop() {
            *idle_rounds = 0;
            assert(before.popped_own(*self, wk as int, c.ptr()));
            proof {
                law_taking_work_conserves_it(before, *self, wk as int, c.ptr());
            }
            return IdleStep::Run(c);
        }
        assert(before.workers@[wk as int].deque.order().len() == 0);
        let ghost popped = self.workers@;
        assert forall|i: int|
            #![trigger popped[i]]
            #![trigger before.workers@[i]]
            0 <= i < popped.len() implies {
            &&& deque::same_queue::<SuspendedTaskToken, S::RunQueue>(
                before.workers@[i].deque,
                popped[i].deque,
            )
            &&& popped[i].same_but_queue(before.workers@[i])
        } by {
            if i != wk {
                assert(popped[i] == before.workers@[i]);
            }
        }
        let steal = try_steal(&mut self.workers, wk);
        let empty = matches!(steal, Steal::Empty);
        if let Steal::Success(c) = steal {
            *idle_rounds = 0;
            proof {
                let k = choose|k: int| #[trigger]
                    crate::resumable::common::worker::stolen_at(
                        popped,
                        self.workers@,
                        wk as int,
                        c.ptr(),
                        k,
                    );
                assert(crate::resumable::common::worker::stolen_at(
                    before.workers@,
                    self.workers@,
                    wk as int,
                    c.ptr(),
                    k,
                ));
                law_taking_work_conserves_it(before, *self, wk as int, c.ptr());
            }
            return IdleStep::Run(c);
        }
        assert(before.searched(*self, wk as int));
        assert(before.search_may_miss(wk as int));
        if let Some(c) = self.external_queue.try_pop() {
            *idle_rounds = 0;
            proof {
                law_taking_work_conserves_it(before, *self, wk as int, c.ptr());
            }
            return IdleStep::Run(c);
        }
        proof {
            lemma_same_orders(before, *self, wk as int);
        }
        if empty {
            *idle_rounds = (*idle_rounds).wrapping_add(1);
            let rounds: u32 = *idle_rounds;
            assert(rounds & 0x3F == rounds % 64) by (bit_vector);
            if *idle_rounds & 0x3F == 0 {
                return IdleStep::Yield;
            }
        }
        IdleStep::Spin
    }

    /// One pass of the service task of the queue of outside wakes, which runs
    /// on worker `current`: what is queued there goes, oldest first, behind
    /// everything that is queued on the worker. A queue that workers drain
    /// themselves has no service. Outside of all workers there is nobody to
    /// hand it to, and it is lost.
    pub fn run_service(&mut self, current: Option<usize>) -> (r: ServiceStep)
        requires
            old(self).queues_wf(),
            current matches Some(wk) ==> wk < old(self).workers@.len(),
        ensures
            final(self).queues_wf(),
            final(self).same_but_queues(*old(self)),
            final(self).external_queue.stopped() == old(self).external_queue.stopped(),
            r == (if S::ExternalQueue::drained_by_workers() || old(self).external_queue.stopped() {
                ServiceStep::Return
            } else {
                ServiceStep::YieldAndRepeat
            }),
            old(self).served(*final(self), current),
    {
        let ghost before = *self;
        let (mut pending, step) = self.external_queue.run_service();
        let ghost after = self.external_queue.items();
        if let Some(wk) = current {
            let ghost own = before.workers@[wk as int].deque.order();
            let ghost all = pending@;
            assert(own + Seq::new(0, |j: int| all[j].ptr()) =~= own);
            while pending.len() > 0
                invariant
                    wk < before.workers@.len(),
                    pending@.len() <= all.len(),
                    pending@ == all.skip(all.len() - pending@.len()),
                    self.queues_wf(),
                    self.same_but_queues(before),
                    self.external_queue.items() == after,
                    self.external_queue.stopped() == before.external_queue.stopped(),
                    self.workers@ == before.workers@.update(wk as int, self.workers@[wk as int]),
                    self.workers@[wk as int].same_but_queue(before.workers@[wk as int]),
                    own == before.workers@[wk as int].deque.order(),
                    self.workers@[wk as int].deque.order() == own + Seq::new(
                        (all.len() - pending@.len()) as nat,
                        |j: int| all[j].ptr(),
                    ),
                    self.workers@[wk as int].deque.contents() == after_defers::<S>(
                        before.workers@[wk as int].deque.contents(),
                        Seq::new(
                            (all.len() - pending@.len()) as nat,
                            |j: int| all[j].ptr(),
                        ),
                    ),
                decreases pending@.len(),
            {
                let ghost done = all.len() - pending@.len();
                let ghost order = self.workers@[wk as int].deque.order();
                let c = pending.remove(0);
                assert(c == all[done]);
                self.workers[wk].defer(c);
                assert(pending@ =~= all.skip(done + 1));
                assert(Seq::new((done + 1) as nat, |j: int| all[j].ptr()).drop_last() =~= Seq::new(
                    done as nat,
                    |j: int| all[j].ptr(),
                ));
                assert(order.push(all[done].ptr()) =~= own + Seq::new(
                    (done + 1) as nat,
                    |j: int| all[j].ptr(),
                ));
                assert(self.workers@ =~= before.workers@.update(
                    wk as int,
                    self.workers@[wk as int],
                ));
            }
            assert(Seq::new(all.len(), |j: int| all[j].ptr()) =~= before.to_serve());
        }
        step
    }
}

/// No wake is lost. Whichever worker the waker runs on, and from outside of all
/// workers, the continuation is one more that is ready, and once more; all
/// others stay. A worker that wakes it runs it next, before what it had queued;
/// a wake from outside comes behind all earlier ones.
pub proof fn law_no_wake_is_lost<S: SchedulerSystem>(
    a: Scheduler<S>,
    b: Scheduler<S>,
    current: Option<usize>,
    c: usize,
)
    requires
        current matches Some(wk) ==> wk < a.workers@.len(),
        a.delivered(b, current, c),
    ensures
        b.ready() == a.ready().insert(c),
        b.ready().count(c) == a.ready().count(c) + 1,
        b.workers@.len() == a.workers@.len(),
        forall|i: int|
            0 <= i < a.workers@.len() ==> (#[trigger] b.workers@[i]).deque.order() == (
            if current is Some && current->0 == i {
                seq![c] + a.workers@[i].deque.order()
            } else {
                a.workers@[i].deque.order()
            }),
        b.external_queue.items() == (if current is None {
            a.external_queue.items().push(c)
        } else {
            a.external_queue.items()
        }),
        b.external_queue.stopped() == a.external_queue.stopped(),
{
    match current {
        Some(wk) => {
            assert forall|i: int| 0 <= i < a.workers@.len() implies (
            #[trigger] b.workers@[i]).deque.order() == (if current is Some && current->0 == i {
                seq![c] + a.workers@[i].deque.order()
            } else {
                a.workers@[i].deque.order()
            }) by {
                assert(b.orders()[i] == b.workers@[i].deque.order());
                assert(a.orders()[i] == a.workers@[i].deque.order());
            }
            let s = seq![c] + a.orders()[wk as int];
            crate::resumable::common::pool::lemma_bag_update(a.orders(), wk as int, s);
            crate::resumable::common::deque::law_taking_conserves_items(s, 0);
            assert(s.remove(0) =~= a.orders()[wk as int]);
        },
        None => {
            assert(b.orders() =~= a.orders());
            let s = a.external_queue.items().push(c);
            crate::resumable::common::deque::law_taking_conserves_items(s, s.len() - 1);
            assert(s.remove(s.len() - 1) =~= a.external_queue.items());
        },
    }
    assert(b.ready() =~= a.ready().insert(c));
}

/// What is ready is what some worker has queued or what was woken from outside,
/// and nothing else.
pub proof fn law_ready_is_what_is_queued<S: SchedulerSystem>(s: Scheduler<S>, c: usize)
    ensures
        s.ready().contains(c) <==> s.external_queue.items().contains(c) || exists|w: int|
            0 <= w < s.workers@.len() && (#[trigger] s.workers@[w]).deque.order().contains(c),
{
    lemma_in_bag(s.orders(), c);
    broadcast use vstd::seq_lib::group_to_multiset_ensures;

    s.external_queue.items().to_multiset_ensures();
    if exists|w: int|
        0 <= w < s.workers@.len() && (#[trigger] s.workers@[w]).deque.order().contains(c) {
        let w = choose|w: int|
            0 <= w < s.workers@.len() && (#[trigger] s.workers@[w]).deque.order().contains(c);
        assert(s.orders()[w].contains(c));
    }
    if exists|w: int| 0 <= w < s.orders().len() && (#[trigger] s.orders()[w]).contains(c) {
        let w = choose|w: int|
            0 <= w < s.orders().len() && (#[trigger] s.orders()[w]).contains(c);
        assert(s.workers@[w].deque.order().contains(c));
    }
}

/// What is in a bag of lists is in one of them.
proof fn lemma_in_bag(lists: Seq<Seq<usize>>, c: usize)
    ensures
        crate::resumable::common::pool::bag(lists).contains(c) <==> exists|w: int|
            0 <= w < lists.len() && (#[trigger] lists[w]).contains(c),
    decreases lists.len(),
{
    if lists.len() > 0 {
        let rest = lists.drop_last();
        lemma_in_bag(rest, c);
        lists.last().to_multiset_ensures();
        if exists|w: int| 0 <= w < rest.len() && (#[trigger] rest[w]).contains(c) {
            let w = choose|w: int| 0 <= w < rest.len() && (#[trigger] rest[w]).contains(c);
            assert(lists[w].contains(c));
        }
        if exists|w: int| 0 <= w < lists.len() && (#[trigger] lists[w]).contains(c) {
            let w = choose|w: int| 0 <= w < lists.len() && (#[trigger] lists[w]).contains(c);
            if w < rest.len() {
                assert(rest[w].contains(c));
            } else {
                assert(lists.last().contains(c));
            }
        }
        if lists.last().contains(c) {
            assert(lists[lists.len() - 1].contains(c));
        }
    }
}

/// A search that found nothing leaves everything that is ready.
proof fn lemma_same_orders<S: SchedulerSystem>(a: Scheduler<S>, b: Scheduler<S>, wk: int)
    requires
        a.searched(b, wk),
        b.external_queue.items() == a.external_queue.items(),
    ensures
        b.ready() == a.ready(),
{
    assert forall|i: int| 0 <= i < a.orders().len() implies b.orders()[i]
        == #[trigger] a.orders()[i] by {
        assert(deque::same_queue::<SuspendedTaskToken, S::RunQueue>(
            a.workers@[i].deque,
            b.workers@[i].deque,
        ));
    }
    assert(b.orders() =~= a.orders());
}

/// A worker takes work where it is said to: from its own queue the first one,
/// from another worker's queue one that was there, and never from its own while
/// it robs; all other queues and everything from outside stay.
pub proof fn law_work_is_taken_from_one_queue<S: SchedulerSystem>(
    a: Scheduler<S>,
    b: Scheduler<S>,
    wk: int,
    c: usize,
)
    requires
        a.queues_wf(),
        0 <= wk < a.workers@.len(),
    ensures
        a.popped_own(b, wk, c) ==> {
            &&& a.workers@[wk].deque.order() == seq![c] + b.workers@[wk].deque.order()
            &&& b.workers@.len() == a.workers@.len()
            &&& forall|i: int|
                0 <= i < a.workers@.len() && i != wk ==> #[trigger] b.workers@[i] == a.workers@[i]
            &&& b.workers@[wk].same_but_queue(a.workers@[wk])
            &&& b.external_queue == a.external_queue
        },
        a.stole(b, wk, c) ==> {
            &&& b.external_queue == a.external_queue
            &&& b.workers@.len() == a.workers@.len()
            &&& b.workers@[wk].deque.order() == a.workers@[wk].deque.order()
            &&& exists|v: int| #![trigger a.workers@[v]]
                {
                    &&& 0 <= v < a.workers@.len()
                    &&& v != wk
                    &&& a.workers@[v].deque.order().contains(c)
                    &&& b.workers@[v].deque.order().len() + 1 == a.workers@[v].deque.order().len()
                    &&& forall|i: int|
                        0 <= i < a.workers@.len() && i != v ==> (
                        #[trigger] b.workers@[i]).deque.order() == a.workers@[i].deque.order()
                }
        },
{
    if a.popped_own(b, wk, c) {
        assert(a.workers@[wk].deque.order() =~= seq![c] + b.workers@[wk].deque.order());
    }
    if a.stole(b, wk, c) {
        let k = choose|k: int| #[trigger]
            crate::resumable::common::worker::stolen_at(a.workers@, b.workers@, wk, c, k);
        crate::resumable::common::worker::law_theft_takes_from_one_other_worker(
            a.workers@,
            b.workers@,
            wk,
            c,
            k,
        );
    }
}

/// An idle worker turns to what was woken from outside only when no other worker
/// has anything that it could take: of each other worker the queue is empty, or
/// a theft from it may fail.
pub proof fn law_outside_wakes_come_last<S: SchedulerSystem>(s: Scheduler<S>, wk: int, i: int)
    requires
        0 <= i < s.workers@.len(),
        i != wk,
    ensures
        s.search_may_miss(wk) ==> s.workers@[i].deque.order().len() == 0
            || s.workers@[i].deque.may_retry(),
        s.search_is_empty(wk) ==> s.workers@[i].deque.order().len() == 0,
        s.external_ready() <==> S::ExternalQueue::drained_by_workers()
            && s.external_queue.items().len() > 0,
{
    if s.search_may_miss(wk) {
        assert(crate::resumable::common::worker::may_miss(s.workers@[i]));
    }
}

/// Two schedulers that differ at most in their workers and their queues agree on
/// everything else, down to every task.
pub proof fn law_same_but_queues<S: SchedulerSystem>(a: Scheduler<S>, b: Scheduler<S>)
    ensures
        a.same_but_queues(b) <==> {
            &&& a == (Scheduler::<S> {
                workers: a.workers,
                external_queue: a.external_queue,
                ..b
            })
            &&& a.external_queue.stopped() == b.external_queue.stopped()
        },
{
}

/// A descriptor that is given back leaves the tasks for one place: its pool, if
/// the pool keeps it, or the hands of whoever frees it. All other tasks, the
/// other pools and all workers stay.
pub proof fn law_reclaiming_gives_back_once<S: SchedulerSystem>(
    a: Scheduler<S>,
    b: Scheduler<S>,
    wk: usize,
    desc: usize,
    freed: Option<Node<S::Desc>>,
    other: usize,
)
    requires
        a.tasks@.dom().contains(desc),
        a.reclaimed(b, wk, desc, freed),
    ensures
        !b.tasks@.dom().contains(desc),
        other != desc ==> b.tasks@.dom().contains(other) == a.tasks@.dom().contains(other)
            && b.tasks@[other] == a.tasks@[other],
        freed matches Some(node) ==> node == a.tasks@[desc] && b.task_pool.pooled()
            == a.task_pool.pooled() && b.async_task_pool.pooled() == a.async_task_pool.pooled(),
        freed is None ==> ({
            let into_async = a.tasks@[desc].payload.is_pooled_async();
            &&& b.task_pool.pooled() == (if into_async {
                a.task_pool.pooled()
            } else {
                a.task_pool.pooled().insert(a.tasks@[desc])
            })
            &&& b.async_task_pool.pooled() == (if into_async {
                a.async_task_pool.pooled().insert(a.tasks@[desc])
            } else {
                a.async_task_pool.pooled()
            })
        }),
        b.workers == a.workers,
        b.external_queue == a.external_queue,
        b.recursion_pool == a.recursion_pool,
        b.finished == a.finished,
        b.stack_size == a.stack_size,
{
}

/// A pass of the service moves outside wakes and loses none: what was woken from
/// outside comes, oldest first, behind what the service's worker had queued, and
/// everything that was ready is still ready. A queue that workers drain
/// themselves is left to them.
pub proof fn law_service_moves_every_wake<S: SchedulerSystem>(
    a: Scheduler<S>,
    b: Scheduler<S>,
    wk: usize,
)
    requires
        wk < a.workers@.len(),
        a.served(b, Some(wk)),
    ensures
        b.ready() == a.ready(),
        b.workers@.len() == a.workers@.len(),
        forall|i: int|
            0 <= i < a.workers@.len() && i != wk ==> (#[trigger] b.workers@[i]).deque.order()
                == a.workers@[i].deque.order(),
        S::ExternalQueue::drained_by_workers() ==> b.workers@[wk as int].deque.order()
            == a.workers@[wk as int].deque.order() && b.external_queue.items()
            == a.external_queue.items(),
        !S::ExternalQueue::drained_by_workers() ==> b.workers@[wk as int].deque.order()
            == a.workers@[wk as int].deque.order() + a.external_queue.items()
            && b.external_queue.items().len() == 0,
{
    let items = a.external_queue.items();
    let s = b.orders()[wk as int];
    assert(b.orders() =~= a.orders().update(wk as int, s));
    crate::resumable::common::pool::lemma_bag_update(a.orders(), wk as int, s);
    if S::ExternalQueue::drained_by_workers() {
        assert(s =~= a.orders()[wk as int]);
    } else {
        vstd::seq_lib::lemma_multiset_commutative(a.orders()[wk as int], items);
        crate::resumable::common::pool::lemma_multiset_of_parts_empty::<usize>();
        assert(b.external_queue.items() =~= Seq::<usize>::empty());
    }
    assert(b.ready() =~= a.ready());
}

/// No outside wake is lost when the service is asked to return: what was handed
/// over before its last pass is queued on the worker that it runs on.
pub proof fn law_last_wakes_are_delivered<S: SchedulerSystem>(
    a: Scheduler<S>,
    b: Scheduler<S>,
    wk: usize,
    c: usize,
)
    requires
        !S::ExternalQueue::drained_by_workers(),
        a.external_queue.items().contains(c),
        a.served(b, Some(wk)),
    ensures
        b.workers@[wk as int].deque.order().contains(c),
        b.external_queue.items().len() == 0,
{
    let own = a.workers@[wk as int].deque.order();
    let i = a.external_queue.items().index_of(c);
    assert(b.workers@[wk as int].deque.order()[own.len() + i] == c);
}

/// Descriptors of tasks with stacks of their own, for each worker.
pub trait TaskPool<S: SchedulerSystem>: Sized {
    /// The scheduler.
    spec fn pool_state(&self) -> Scheduler<S>;

    /// A descriptor for a task with a stack of its own, from worker `wk`.
    /// `make` makes a stack of a given size.
    fn alloc_task<F: FnOnce(usize) -> StackMem>(
        &mut self,
        wk: usize,
        has_handle: bool,
        make: F,
    ) -> (r: SuspendedTaskToken)
        requires
            old(self).pool_state().pools_wf(),
            old(self).pool_state().tasks.has_room(),
            wk < old(self).pool_state().workers@.len(),
            crate::resumable::common::pool::stack_needed(
                old(self).pool_state().task_pool,
                wk,
                old(self).pool_state().stack_size,
            ) matches Some(size)
                ==> call_requires(make, (size,)),
        ensures
            final(self).pool_state().pools_wf(),
            crate::resumable::common::desc::is_desc_addr(r.ptr()),
            !old(self).pool_state().tasks@.dom().contains(r.ptr()),
            final(self).pool_state().tasks@.dom() == old(self).pool_state().tasks@.dom().insert(r.ptr()),
            final(self).pool_state().tasks@.remove(r.ptr()) == old(self).pool_state().tasks@,
            crate::resumable::common::pool::node_allocated(
                old(self).pool_state().task_pool,
                final(self).pool_state().task_pool,
                wk,
                has_handle,
                old(self).pool_state().stack_size,
                make,
                final(self).pool_state().tasks@[r.ptr()],
            ),
            final(self).pool_state().workers == old(self).pool_state().workers,
            final(self).pool_state().finished == old(self).pool_state().finished,
            final(self).pool_state().external_queue == old(self).pool_state().external_queue,
            final(self).pool_state().stack_size == old(self).pool_state().stack_size,
            final(self).pool_state().async_task_pool == old(self).pool_state().async_task_pool,
            final(self).pool_state().recursion_pool == old(self).pool_state().recursion_pool,
    ;

    /// Gives the descriptor at `desc` back from worker `wk`. A node that does
    /// not enter the pool is handed out, to be freed.
    fn free_task(&mut self, wk: usize, desc: usize) -> (r: Option<Node<S::Desc>>)
        requires
            old(self).pool_state().pools_wf(),
            wk < old(self).pool_state().workers@.len(),
            old(self).pool_state().tasks@.dom().contains(desc),
            !old(self).pool_state().tasks@[desc].payload.root(),
        ensures
            final(self).pool_state().pools_wf(),
            final(self).pool_state().tasks.has_room(),
            final(self).pool_state().tasks@ == old(self).pool_state().tasks@.remove(desc),
            crate::resumable::common::pool::node_returned(
                old(self).pool_state().task_pool,
                final(self).pool_state().task_pool,
                wk,
                old(self).pool_state().tasks@[desc],
                r,
            ),
            final(self).pool_state().workers == old(self).pool_state().workers,
            final(self).pool_state().finished == old(self).pool_state().finished,
            final(self).pool_state().external_queue == old(self).pool_state().external_queue,
            final(self).pool_state().stack_size == old(self).pool_state().stack_size,
            final(self).pool_state().async_task_pool == old(self).pool_state().async_task_pool,
            final(self).pool_state().recursion_pool == old(self).pool_state().recursion_pool,
    ;
}

/// Descriptors of polled tasks, for each worker.
pub trait AsyncTaskPool<S: SchedulerSystem>: Sized {
    /// The scheduler.
    spec fn pool_state(&self) -> Scheduler<S>;

    /// A descriptor for a polled task whose state takes `size` bytes, from
    /// worker `wk`.
    fn alloc_async_task<F: FnOnce(usize) -> StackMem>(
        &mut self,
        wk: usize,
        has_handle: bool,
        size: usize,
        make: F,
    ) -> (r: SuspendedTaskToken)
        requires
            old(self).pool_state().pools_wf(),
            old(self).pool_state().tasks.has_room(),
            wk < old(self).pool_state().workers@.len(),
            crate::resumable::common::pool::stack_needed(
                old(self).pool_state().async_task_pool,
                wk,
                size,
            ) matches Some(made) ==> call_requires(
                make,
                (made,),
            ),
        ensures
            final(self).pool_state().pools_wf(),
            crate::resumable::common::desc::is_desc_addr(r.ptr()),
            !old(self).pool_state().tasks@.dom().contains(r.ptr()),
            final(self).pool_state().tasks@.dom() == old(self).pool_state().tasks@.dom().insert(r.ptr()),
            final(self).pool_state().tasks@.remove(r.ptr()) == old(self).pool_state().tasks@,
            crate::resumable::common::pool::node_allocated(
                old(self).pool_state().async_task_pool,
                final(self).pool_state().async_task_pool,
                wk,
                has_handle,
                size,
                make,
                final(self).pool_state().tasks@[r.ptr()],
            ),
            final(self).pool_state().workers == old(self).pool_state().workers,
            final(self).pool_state().finished == old(self).pool_state().finished,
            final(self).pool_state().external_queue == old(self).pool_state().external_queue,
            final(self).pool_state().stack_size == old(self).pool_state().stack_size,
            final(self).pool_state().task_pool == old(self).pool_state().task_pool,
            final(self).pool_state().recursion_pool == old(self).pool_state().recursion_pool,
    ;

    /// Gives the descriptor of a polled task back from worker `wk`.
    fn free_async_task(&mut self, wk: usize, desc: usize) -> (r: Option<Node<S::Desc>>)
        requires
            old(self).pool_state().pools_wf(),
            wk < old(self).pool_state().workers@.len(),
            old(self).pool_state().tasks@.dom().contains(desc),
            !old(self).pool_state().tasks@[desc].payload.root(),
        ensures
            final(self).pool_state().pools_wf(),
            final(self).pool_state().tasks.has_room(),
            final(self).pool_state().tasks@ == old(self).pool_state().tasks@.remove(desc),
            crate::resumable::common::pool::node_returned(
                old(self).pool_state().async_task_pool,
                final(self).pool_state().async_task_pool,
                wk,
                old(self).pool_state().tasks@[desc],
                r,
            ),
            final(self).pool_state().workers == old(self).pool_state().workers,
            final(self).pool_state().finished == old(self).pool_state().finished,
            final(self).pool_state().external_queue == old(self).pool_state().external_queue,
            final(self).pool_state().stack_size == old(self).pool_state().stack_size,
            final(self).pool_state().task_pool == old(self).pool_state().task_pool,
            final(self).pool_state().recursion_pool == old(self).pool_state().recursion_pool,
    ;
}

/// Frames for recursive calls of polled tasks, for each worker.
pub trait RecursionAlloc<S: SchedulerSystem>: Sized {
    /// The scheduler.
    spec fn pool_state(&self) -> Scheduler<S>;

    /// A frame for a recursive call of a polled task, from worker `wk`.
    /// `make` allocates memory.
    fn alloc_recursion_frame<F: FnOnce(Layout) -> usize>(
        &mut self,
        wk: usize,
        layout: Layout,
        make: F,
    ) -> (r: Block)
        requires
            old(self).pool_state().pools_wf(),
            wk < old(self).pool_state().workers@.len(),
            crate::resumable::common::pool::memory_needed(
                old(self).pool_state().recursion_pool,
                wk,
                layout,
            ) matches Some(made)
                ==> crate::resumable::common::pool::makes_allocations(make, made),
        ensures
            final(self).pool_state().pools_wf(),
            crate::resumable::common::pool::block_allocated(
                old(self).pool_state().recursion_pool,
                final(self).pool_state().recursion_pool,
                wk,
                layout,
                make,
                r,
            ),
            final(self).pool_state() == (Scheduler::<S> {
                recursion_pool: final(self).pool_state().recursion_pool,
                ..old(self).pool_state()
            }),
    ;

    /// Gives a frame back from worker `wk`. A frame that does not enter the
    /// pool is handed out, to be freed.
    fn free_recursion_frame(&mut self, wk: usize, block: Block, layout: Layout) -> (r: Option<
        Block,
    >)
        requires
            old(self).pool_state().pools_wf(),
            wk < old(self).pool_state().workers@.len(),
            block.home() < old(self).pool_state().workers@.len(),
        ensures
            final(self).pool_state().pools_wf(),
            crate::resumable::common::pool::block_returned(
                old(self).pool_state().recursion_pool,
                final(self).pool_state().recursion_pool,
                wk,
                block,
                layout,
                r,
            ),
            final(self).pool_state() == (Scheduler::<S> {
                recursion_pool: final(self).pool_state().recursion_pool,
                ..old(self).pool_state()
            }),
    ;
}

impl<S: SchedulerSystem> TaskPool<S> for Scheduler<S> {
    open spec fn pool_state(&self) -> Scheduler<S> {
        *self
    }

    fn alloc_task<F: FnOnce(usize) -> StackMem>(
        &mut self,
        wk: usize,
        has_handle: bool,
        make: F,
    ) -> (r: SuspendedTaskToken) {
        let size: usize = self.stack_size;
        let node = self.task_pool.alloc_node(wk, has_handle, size, make);
        let ghost n = node;
        let ptr: usize = self.tasks.insert(node);
        assert(self.tasks@.dom() =~= old(self).tasks@.dom().insert(ptr));
        assert(self.tasks@.remove(ptr) =~= old(self).tasks@);
        SuspendedTaskToken::from_raw(ptr)
    }

    fn free_task(&mut self, wk: usize, desc: usize) -> (r: Option<Node<S::Desc>>) {
        let node = self.tasks.remove(desc);
        self.task_pool.dealloc(wk, node)
    }
}

impl<S: SchedulerSystem> AsyncTaskPool<S> for Scheduler<S> {
    open spec fn pool_state(&self) -> Scheduler<S> {
        *self
    }

    fn alloc_async_task<F: FnOnce(usize) -> StackMem>(
        &mut self,
        wk: usize,
        has_handle: bool,
        size: usize,
        make: F,
    ) -> (r: SuspendedTaskToken) {
        let node = self.async_task_pool.alloc_node(wk, has_handle, size, make);
        let ptr: usize = self.tasks.insert(node);
        assert(self.tasks@.dom() =~= old(self).tasks@.dom().insert(ptr));
        assert(self.tasks@.remove(ptr) =~= old(self).tasks@);
        SuspendedTaskToken::from_raw(ptr)
    }

    fn free_async_task(&mut self, wk: usize, desc: usize) -> (r: Option<Node<S::Desc>>) {
        let node = self.tasks.remove(desc);
        self.async_task_pool.dealloc(wk, node)
    }
}

impl<S: SchedulerSystem> RecursionAlloc<S> for Scheduler<S> {
    open spec fn pool_state(&self) -> Scheduler<S> {
        *self
    }

    fn alloc_recursion_frame<F: FnOnce(Layout) -> usize>(
        &mut self,
        wk: usize,
        layout: Layout,
        make: F,
    ) -> (r: Block) {
        self.recursion_pool.alloc_block(wk, layout, make)
    }

    fn free_recursion_frame(&mut self, wk: usize, block: Block, layout: Layout) -> (r: Option<
        Block,
    >) {
        self.recursion_pool.dealloc(wk, block, layout)
    }
}

/// Taking work conserves it: whether a worker pops its own queue, steals, or
/// takes an outside wake, exactly the continuation that it runs leaves the
/// ready ones, and every other one stays.
pub proof fn law_taking_work_conserves_it<S: SchedulerSystem>(
    a: Scheduler<S>,
    b: Scheduler<S>,
    wk: int,
    c: usize,
)
    requires
        a.queues_wf(),
        0 <= wk < a.workers@.len(),
        a.popped_own(b, wk, c) || a.stole(b, wk, c) || (a.searched(b, wk)
            && a.external_queue.items().len() > 0 && c == a.external_queue.items().last()
            && b.external_queue.items() == a.external_queue.items().drop_last()),
    ensures
        a.ready() == b.ready().insert(c),
{
    let none = Seq::<usize>::empty();
    if a.popped_own(b, wk, c) {
        let s = b.orders()[wk];
        assert(b.orders() =~= a.orders().update(wk, s));
        crate::resumable::common::pool::lemma_bag_update(a.orders(), wk, s);
        crate::resumable::common::deque::law_taking_conserves_items(a.orders()[wk], 0);
        assert(a.orders()[wk].remove(0) =~= a.orders()[wk].drop_first());
    } else if a.stole(b, wk, c) {
        let k = choose|k: int| #[trigger]
            crate::resumable::common::worker::stolen_at(a.workers@, b.workers@, wk, c, k);
        let v = crate::resumable::common::worker::victim_at(
            a.workers@[wk].steal_seed,
            k,
            a.workers@.len() as int,
        );
        vstd::arithmetic::div_mod::lemma_mod_bound(
            a.workers@[wk].steal_seed + k,
            a.workers@.len() as int,
        );
        let s = b.orders()[v];
        a.workers@[v].deque.steal_at_in_range();
        assert forall|i: int| 0 <= i < a.orders().len() implies b.orders()[i]
            == #[trigger] a.orders().update(v, s)[i] by {
            if i != v {
                assert(deque::same_queue::<SuspendedTaskToken, S::RunQueue>(
                    a.workers@[i].deque,
                    b.workers@[i].deque,
                ));
            }
        }
        assert(b.orders() =~= a.orders().update(v, s));
        crate::resumable::common::pool::lemma_bag_update(a.orders(), v, s);
        crate::resumable::common::deque::law_taking_conserves_items(
            a.orders()[v],
            a.workers@[v].deque.steal_at(),
        );
    } else {
        assert forall|i: int| 0 <= i < a.orders().len() implies b.orders()[i]
            == #[trigger] a.orders()[i] by {
            assert(deque::same_queue::<SuspendedTaskToken, S::RunQueue>(
                a.workers@[i].deque,
                b.workers@[i].deque,
            ));
        }
        assert(b.orders() =~= a.orders());
        crate::resumable::common::pool::lemma_multiset_of_parts(
            a.external_queue.items(),
            none,
            c,
        );
    }
    assert(a.ready() =~= b.ready().insert(c));
}

/// A worker that is idle has nothing queued and runs nothing, and the descriptor
/// of its own loop is its own: it belongs to that worker, has no stack, is never
/// joined, and enters no pool.
pub proof fn law_idle_worker_has_only_its_loop<S: SchedulerSystem>(
    w: UltWorker<S>,
    tasks: Map<usize, Node<S::Desc>>,
)
    requires
        is_idle_worker(w, tasks),
    ensures
        w.deque.order().len() == 0,
        w.running() is None,
        w.parked_loop() is None,
        w.polling_async == 0,
        !w.yield_requested,
        tasks.dom().contains(w.root_desc),
        tasks[w.root_desc].alloc_wk == w.num,
        tasks[w.root_desc].oversized,
        tasks[w.root_desc].payload.root(),
        tasks[w.root_desc].payload.stack() is NoStack,
        tasks[w.root_desc].payload.word() == crate::resumable::common::desc::JS_DETACHED,
{
    S::Desc::fresh_root().lifecycle(StackMem::NoStack, false);
}

/// Recursion frames are pooled up to the size that the system says, aligned to
/// sixteen bytes.
pub proof fn law_small_frames_are_pooled<S: PoolSystem>(frame: Layout)
    ensures
        recursion_threshold::<S>().covers(frame) <==> frame.size <= S::spec_async_pool_size()
            && frame.align <= 16,
{
}

} // verus!
