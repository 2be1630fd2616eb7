//! Running a system from its first task to its last.
use vstd::multiset::Multiset;
use vstd::prelude::*;

use crate::context::{Arch, Context, ContextPolicy, Entry, WORD};
use crate::resumable::common::deque::WorkerRunQueue;
use crate::resumable::common::desc::{HasExternalQueue, TaskDescAlloc, TaskDescCore};
use crate::resumable::common::external_queue::ExternalWakeQueue;
use crate::resumable::common::pool;
use crate::resumable::common::pool::{Block, DescPoolModel, DynamicPoolModel, Node, PoolNode};
use crate::resumable::common::scheduler;
use crate::resumable::common::scheduler::Scheduler;
use crate::resumable::common::stack;
use crate::resumable::common::stack::StackMem;
use crate::resumable::common::system::SchedulerSystem;
use crate::resumable::common::table::MAX_LIVE_TASKS;
use crate::resumable::common::worker::LocalQueue;
use crate::resumable::stackful::desc as stackful_desc;
use crate::resumable::stackful::desc::HasCtx;
use crate::resumable::stackful::init;
use crate::resumable::stackful::system::StackfulWorkerSystem;
use crate::resumable::stackful::thread;

verus! {

/// The body of a system's first task: runs `root`, hands its result to whoever
/// waits for the system, and tells all workers to leave.
pub fn run_with_result<S: SchedulerSystem, F: FnOnce() -> R, R>(
    sched: &mut Scheduler<S>,
    root: F,
) -> (r: R)
    requires
        call_requires(root, ()),
    ensures
        call_ensures(root, (), r),
        *final(sched) == (Scheduler::<S> { finished: true, ..*old(sched) }),
{
    let r = root();
    sched.finished = true;
    r
}

/// A system about to run: its scheduler, its first task, and the frame to be
/// written at the task's context.
pub struct RunPlan<S: SchedulerSystem> {
    pub sched: Scheduler<S>,
    pub root: usize,
    pub frame: (Context, Vec<usize>),
}

/// Sets a system of `num_workers` workers up with one task, which nobody has a
/// handle of and which is the next to run on worker 0. `entry` is what it
/// enters its stack through; `make` makes the stack.
pub fn run<S: StackfulWorkerSystem, F: FnOnce(usize) -> StackMem>(
    num_workers: usize,
    stack_size: usize,
    arch: Arch,
    entry: Entry,
    queue: usize,
    make: F,
) -> (r: RunPlan<S>) where <S::Desc as TaskDescCore>::Owned: HasCtx
    requires
        1 <= num_workers < MAX_LIVE_TASKS,
        init::valid_system::<S>(),
        call_requires(make, (stack_size,)),
        forall|stack: StackMem| #[trigger]
            call_ensures(make, (stack_size,), stack) ==> stack.fits() && stack.spec_top() >= 16
                + WORD * S::Ctx::frame_words(arch),
    ensures
        r.sched.queues_wf(),
        r.sched.pools_wf(),
        r.sched.workers@.len() == num_workers,
        !r.sched.finished,
        r.sched.stack_size == stack_size,
        r.sched.external_queue.items() == Seq::<usize>::empty(),
        !r.sched.external_queue.stopped(),
        r.sched.task_pool.pooled() == Multiset::<Node<S::Desc>>::empty(),
        r.sched.task_pool.contents() == S::Pool::no_nodes(num_workers as nat),
        r.sched.task_pool.slot_size() == stack_size,
        r.sched.async_task_pool.pooled() == Multiset::<Node<S::Desc>>::empty(),
        r.sched.async_task_pool.contents() == S::AsyncPool::no_nodes(num_workers as nat),
        r.sched.async_task_pool.slot_size() == S::spec_async_pool_size(),
        r.sched.recursion_pool.pooled() == Multiset::<Block>::empty(),
        r.sched.recursion_pool.contents() == S::RecursionPool::no_blocks(num_workers as nat),
        r.sched.recursion_pool.threshold() == scheduler::recursion_threshold::<S>(),
        r.sched.tasks@.dom().len() == num_workers + 1,
        r.sched.workers@[0].deque.order() == seq![r.root],
        r.sched.workers@[0].deque.contents() == S::RunQueue::after_push(
            S::RunQueue::no_contents(),
            r.root,
        ),
        r.sched.workers@[0].cur_task is None,
        r.sched.workers@[0].root_cont is None,
        r.sched.workers@[0].polling_async == 0,
        !r.sched.workers@[0].yield_requested,
        r.sched.tasks@.dom().contains(r.sched.workers@[0].root_desc),
        r.sched.tasks@[r.sched.workers@[0].root_desc] == (Node {
            alloc_wk: 0,
            oversized: true,
            payload: S::Desc::fresh_root(),
        }),
        r.sched.tasks@[r.sched.workers@[0].root_desc].payload.root(),
        r.root != r.sched.workers@[0].root_desc,
        forall|w: int|
            1 <= w < num_workers ==> scheduler::is_idle_worker(
                #[trigger] r.sched.workers@[w],
                r.sched.tasks@,
            ),
        stackful_desc::is_stackful_at(r.sched.tasks@, r.root),
        r.sched.tasks@[r.root].payload.spec_owned().spec_ctx() == r.frame.0.0,
        r.sched.tasks@[r.root].payload.spec_owned().spec_external_queue() == queue,
        r.sched.tasks@[r.root].payload.word() == crate::resumable::common::desc::initial_word(
            false,
        ),
        !r.sched.tasks@[r.root].payload.root(),
        r.frame.1@ == S::Ctx::entry_frame(arch, entry),
        exists|stack: StackMem|
            {
                let node = thread::committed(
                    Node {
                        alloc_wk: 0,
                        oversized: false,
                        payload: S::Desc::fresh(stack, false),
                    },
                    queue,
                );
                &&& #[trigger] call_ensures(make, (stack_size,), stack)
                &&& r.frame.0 == Context(
                    (stack.spec_top() - stack.spec_top() % 16 - WORD * S::Ctx::frame_words(
                        arch,
                    )) as usize,
                )
                &&& r.sched.tasks@[r.root] == (Node {
                    payload: node.payload.with_owned(
                        node.payload.spec_owned().with_ctx(
                            (stack.spec_top() - stack.spec_top() % 16 - WORD
                                * S::Ctx::frame_words(arch)) as usize,
                        ),
                    ),
                    ..node
                })
            },
{
    let mut sched: Scheduler<S> = Scheduler::new(num_workers, stack_size);
    let ghost fresh = sched;
    assert forall|after: S::Pool, node: Node<S::Desc>| #[trigger]
        thread::gets_node(fresh, after, 0, false, make, node) implies node.payload.stack().fits()
        && node.payload.stack().spec_top() >= 16 + WORD * S::Ctx::frame_words(arch)
        && pool::is_fresh_node(node, 0, false, false, stack_size, make) by {
        if pool::stack_needed(fresh.task_pool, 0, stack_size) is None {
            let x = fresh.task_pool.reusable(0)->0;
            assert(after.pooled().insert(x).count(x) == 0);
        }
        let stack = choose|stack: StackMem| #[trigger]
            call_ensures(make, (stack_size,), stack) && node == (Node {
                alloc_wk: 0,
                oversized: false,
                payload: S::Desc::fresh(stack, false),
            });
        node.payload.lifecycle(stack, false);
    }
    let (token, top) = thread::new_task(&mut sched, 0, false, queue, make);
    let root: usize = token.desc();
    let ghost node = choose|node: Node<S::Desc>|
        {
            &&& #[trigger] thread::new_task_at(fresh, sched, 0, false, make, node, root, queue)
            &&& top == node.payload.stack().spec_top()
        };
    let ghost made = sched;
    assert(thread::gets_node(fresh, sched.task_pool, 0, false, make, node));
    proof {
        thread::lemma_committed(node, queue);
        if pool::stack_needed(fresh.task_pool, 0, stack_size) is None {
            let x = fresh.task_pool.reusable(0)->0;
            assert(made.task_pool.pooled().insert(x).count(x) == 0);
        }
    }
    let (ctx, words) = S::Ctx::make_context(arch, top, entry);
    token.init_saved_context(&mut sched.tasks, ctx.0);
    let ghost prepared = sched;
    sched.workers[0].push(token);
    proof {
        let stack = choose|stack: StackMem| #[trigger]
            call_ensures(make, (stack_size,), stack) && node == (Node {
                alloc_wk: 0,
                oversized: false,
                payload: S::Desc::fresh(stack, false),
            });
        assert(call_ensures(make, (stack_size,), stack));
        node.payload.lifecycle(stack, false);
        stackful_desc::lemma_ctx_at(made.tasks@, root, ctx.0);
        let root_node = made.tasks@[root].payload;
        root_node.spec_owned().queue_is_separate(queue);
        root_node.owned_is_separate(root_node.spec_owned().with_ctx(ctx.0));
        fresh.tasks.law_is_finite();
        assert(sched.tasks@.dom() =~= fresh.tasks@.dom().insert(root));
        assert(sched.workers@[0].deque.order() =~= seq![root]) by {
            assert(scheduler::is_idle_worker(fresh.workers@[0], fresh.tasks@));
        }
        assert forall|w: int| 1 <= w < num_workers implies scheduler::is_idle_worker(
            #[trigger] sched.workers@[w],
            sched.tasks@,
        ) by {
            assert(scheduler::is_idle_worker(fresh.workers@[w], fresh.tasks@));
        }
        assert forall|p: usize| sched.tasks@.dom().contains(p) implies (
        #[trigger] sched.tasks@[p]).home() < sched.workers@.len() by {
            assert(made.tasks@.dom().contains(p));
            assert(made.tasks@[p].home() < made.workers@.len());
        }
    }
    RunPlan { sched, root, frame: (ctx, words) }
}

} // verus!
