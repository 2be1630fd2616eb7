//! Starting tasks, leaving them for good, and waiting for their results.
//!
//! A new task's closure and the place for its result lie at the top of its own
//! stack; what is left below them is the stack that it runs on.
use vstd::prelude::*;

use crate::context::{Arch, CondTransfer, Context, ContextPolicy, Entry, WORD};
use crate::interchange::{PointerInterchangeable, Transferred};
use crate::resumable::common::deque::WorkerRunQueue;
use crate::resumable::common::desc as common_desc;
use crate::resumable::common::desc::{
    ExitAction, HasExternalQueue, SuspendedTaskToken, TaskDesc, TaskDescCore, JS_FINISHED,
};
use crate::resumable::common::layout::Layout;
use crate::resumable::common::pool;
use crate::resumable::common::pool::{DescPoolModel, Node, PoolNode};
use crate::resumable::common::scheduler::{Scheduler, TaskPool};
use crate::resumable::common::stack;
use crate::resumable::common::stack::StackMem;
use crate::resumable::common::system::{ReclaimableDesc, SchedulerSystem};
use crate::resumable::common::thread as common_thread;
use crate::resumable::common::thread::{align_down, JoinHandle, StackResult};
use crate::resumable::common::worker::{DescWorkerOps, LocalQueue, UltWorker};
use crate::resumable::stackful::desc as stackful_desc;
use crate::resumable::stackful::desc::HasCtx;
use crate::resumable::stackful::system;
use crate::resumable::stackful::system::StackfulWorkerSystem;
use crate::resumable::stackful::worker as stackful_worker;
use crate::resumable::stackless::desc::WakerTaskDesc;
use crate::resumable::stackful::worker::{ContextSwitcher, PendingSwitch, StackfulWorker};

verus! {

// ---------------------------------------------------------------------------
// Where a task's closure and result lie
// ---------------------------------------------------------------------------

/// The alignment of the stack that a task starts on.
pub const STACK_ALIGN: usize = 16;

/// The size of the place at the top of a branch's stack that names what the
/// branch runs.
pub const DISPATCH_SLOT_SIZE: usize = 8;

/// How much of a branch's stack is set aside for its closure and result, when
/// they fit into it.
pub const BRANCH_HEADER_BUDGET: usize = 256;

/// Where a result with layout `r` lies on a stack with the top `top`.
pub open spec fn result_addr(top: int, r: Layout) -> int {
    common_thread::rounded_down(top - r.size, r.align as int)
}

/// Where a closure with layout `f` lies below a result with layout `r`.
pub open spec fn closure_addr(top: int, f: Layout, r: Layout) -> int {
    let below = result_addr(top, r) - f.size;
    common_thread::rounded_down(
        if below < 0 {
            below + usize::MAX + 1
        } else {
            below
        },
        f.align as int,
    )
}

/// Where a closure with layout `f` and a result with layout `r` lie on a stack
/// with the top `stack_top`.
pub fn branch_layout(stack_top: usize, f: Layout, r: Layout) -> (a: (usize, usize))
    requires
        f.wf(),
        r.wf(),
        r.size <= stack_top,
    ensures
        a.0 == closure_addr(stack_top as int, f, r),
        a.1 == result_addr(stack_top as int, r),
{
    let result: usize = align_down(stack_top - r.size, r.align);
    let closure: usize = align_down(result.wrapping_sub(f.size), f.align);
    (closure, result)
}

/// The closure, the result and the stack below them do not overlap, and each
/// is aligned as it has to be.
pub proof fn law_branch_regions_are_apart(top: usize, f: Layout, r: Layout)
    requires
        f.wf(),
        r.wf(),
        f.size + f.align + r.size + r.align <= top,
    ensures
        result_addr(top as int, r) + r.size <= top,
        closure_addr(top as int, f, r) + f.size <= result_addr(top as int, r),
        result_addr(top as int, r) % r.align as int == 0,
        closure_addr(top as int, f, r) % f.align as int == 0,
        closure_addr(top as int, f, r) >= top - r.size - (r.align - 1) - f.size - (f.align - 1),
{
    let ra = (top - r.size) as usize;
    stack::lemma_mask_rounds_down(ra, r.align);
    vstd::arithmetic::div_mod::lemma_mod_bound(ra as int, r.align as int);
    let fa = (result_addr(top as int, r) - f.size) as usize;
    stack::lemma_mask_rounds_down(fa, f.align);
    vstd::arithmetic::div_mod::lemma_mod_bound(fa as int, f.align as int);
}

/// The result lies as high as it can, and the closure as high as it can below the
/// result: no higher place that is aligned leaves room for it.
pub proof fn law_branch_regions_are_tight(top: usize, f: Layout, r: Layout, x: int)
    requires
        f.wf(),
        r.wf(),
        f.size + f.align + r.size + r.align <= top,
    ensures
        x % r.align as int == 0 && x + r.size <= top ==> x <= result_addr(top as int, r),
        x % f.align as int == 0 && x + f.size <= result_addr(top as int, r) ==> x <= closure_addr(
            top as int,
            f,
            r,
        ),
{
    law_branch_regions_are_apart(top, f, r);
    let ra = (top - r.size) as usize;
    stack::lemma_mask_rounds_down(ra, r.align);
    vstd::arithmetic::div_mod::lemma_mod_bound(ra as int, r.align as int);
    let fa = (result_addr(top as int, r) - f.size) as usize;
    stack::lemma_mask_rounds_down(fa, f.align);
    vstd::arithmetic::div_mod::lemma_mod_bound(fa as int, f.align as int);
    lemma_multiples_are_apart(x, result_addr(top as int, r), r.align as int);
    lemma_multiples_are_apart(x, closure_addr(top as int, f, r), f.align as int);
}

/// Two multiples of `m` are equal or at least `m` apart.
proof fn lemma_multiples_are_apart(x: int, y: int, m: int)
    requires
        m > 0,
    ensures
        x % m == 0 && y % m == 0 && x > y ==> x >= y + m,
{
    if x % m == 0 && y % m == 0 && x > y {
        vstd::arithmetic::div_mod::lemma_fundamental_div_mod(x, m);
        vstd::arithmetic::div_mod::lemma_fundamental_div_mod(y, m);
        assert(x / m > y / m) by (nonlinear_arith)
            requires
                m > 0,
                x == m * (x / m),
                y == m * (y / m),
                x > y,
        ;
        assert(m * (x / m) >= m * (y / m) + m) by (nonlinear_arith)
            requires
                m > 0,
                x / m > y / m,
        ;
    }
}

/// Whether a closure and a result fit into the part set aside for them,
/// whatever their alignment takes.
pub open spec fn fits_header(f: Layout, r: Layout) -> bool {
    f.size + f.align + r.size + r.align + DISPATCH_SLOT_SIZE <= BRANCH_HEADER_BUDGET
}

/// Whether a closure and a result fit into the part set aside for them.
pub fn header_fits(f: Layout, r: Layout) -> (fits: bool)
    ensures
        fits == fits_header(f, r),
{
    f.size as u128 + f.align as u128 + r.size as u128 + r.align as u128 + DISPATCH_SLOT_SIZE as u128
        <= BRANCH_HEADER_BUDGET as u128
}

/// Where the stack that a branch runs on begins.
pub open spec fn branch_exec_top(top: int, f: Layout, r: Layout) -> int {
    common_thread::rounded_down(
        if fits_header(f, r) {
            top - BRANCH_HEADER_BUDGET
        } else {
            closure_addr(top - DISPATCH_SLOT_SIZE, f, r)
        },
        STACK_ALIGN as int,
    )
}

/// A closure and a result that fit into the part set aside for them lie above
/// the stack that the branch runs on, wherever that part begins.
pub proof fn law_header_is_above_the_stack(top: usize, f: Layout, r: Layout)
    requires
        f.wf(),
        r.wf(),
        fits_header(f, r),
        top >= BRANCH_HEADER_BUDGET,
    ensures
        branch_exec_top(top as int, f, r) <= closure_addr(top - DISPATCH_SLOT_SIZE, f, r),
        closure_addr(top - DISPATCH_SLOT_SIZE, f, r) + f.size <= result_addr(
            top - DISPATCH_SLOT_SIZE,
            r,
        ),
        result_addr(top - DISPATCH_SLOT_SIZE, r) + r.size <= top - DISPATCH_SLOT_SIZE,
{
    law_branch_regions_are_apart((top - DISPATCH_SLOT_SIZE) as usize, f, r);
    vstd::arithmetic::div_mod::lemma_mod_bound(top - BRANCH_HEADER_BUDGET, STACK_ALIGN as int);
}

/// Where a branch's stack begins: aligned, below the part set aside when the
/// closure and the result fit into it, and otherwise below the closure; and no
/// lower than alignment takes.
pub proof fn law_branch_stack_begins_below(top: int, f: Layout, r: Layout)
    ensures
        branch_exec_top(top, f, r) % 16 == 0,
        fits_header(f, r) <==> f.size + f.align + r.size + r.align + 8 <= 256,
        fits_header(f, r) ==> top - 256 - 16 < branch_exec_top(top, f, r) <= top - 256,
        !fits_header(f, r) ==> closure_addr(top - 8, f, r) - 16 < branch_exec_top(top, f, r)
            <= closure_addr(top - 8, f, r),
{
}

/// The alignment of stacks is a power of two.
pub proof fn lemma_stack_align()
    ensures
        stack::is_pow2(STACK_ALIGN),
{
    vstd::arithmetic::power2::lemma2_to64();
    assert(stack::is_pow2_of(STACK_ALIGN, 4));
}

// ---------------------------------------------------------------------------
// New tasks
// ---------------------------------------------------------------------------

/// A new node, taken into use for a task that can be switched to and that
/// outside threads wake through `queue`.
pub open spec fn committed<D: TaskDescCore>(node: Node<D>, queue: usize) -> Node<D> where
    D::Owned: HasCtx,
 {
    Node {
        payload: node.payload.with_owned(
            node.payload.spec_owned().committed_as_ctx().with_external_queue(queue),
        ),
        ..node
    }
}

/// Whether a new descriptor can be had by worker `wk`, with stacks made by
/// `make`.
pub open spec fn can_alloc<S: SchedulerSystem, F: FnOnce(usize) -> StackMem>(
    s: Scheduler<S>,
    wk: usize,
    make: F,
) -> bool {
    &&& s.pools_wf()
    &&& s.tasks.has_room()
    &&& wk < s.workers@.len()
    &&& pool::stack_needed(s.task_pool, wk, s.stack_size) matches Some(size) ==> call_requires(
        make,
        (size,),
    )
}

/// Whether worker `wk` can get `node` as a new node, leaving the pool as
/// `after`.
pub open spec fn gets_node<S: SchedulerSystem, F: FnOnce(usize) -> StackMem>(
    s: Scheduler<S>,
    after: S::Pool,
    wk: usize,
    has_handle: bool,
    make: F,
    node: Node<S::Desc>,
) -> bool {
    pool::node_allocated(s.task_pool, after, wk, has_handle, s.stack_size, make, node)
}

/// Whether `b` is `a` after worker `wk` got `node` as a new task at `desc`,
/// which outside threads wake through `queue`.
pub open spec fn new_task_at<S: SchedulerSystem, F: FnOnce(usize) -> StackMem>(
    a: Scheduler<S>,
    b: Scheduler<S>,
    wk: usize,
    has_handle: bool,
    make: F,
    node: Node<S::Desc>,
    desc: usize,
    queue: usize,
) -> bool where <S::Desc as TaskDescCore>::Owned: HasCtx {
    &&& gets_node(a, b.task_pool, wk, has_handle, make, node)
    &&& common_desc::is_desc_addr(desc)
    &&& !a.tasks@.dom().contains(desc)
    &&& b.tasks@ == a.tasks@.insert(desc, committed(node, queue))
    &&& b.pools_wf()
    &&& b.workers == a.workers
    &&& b.finished == a.finished
    &&& b.external_queue == a.external_queue
    &&& b.stack_size == a.stack_size
    &&& b.async_task_pool == a.async_task_pool
    &&& b.recursion_pool == a.recursion_pool
}

/// Taking a node into use changes its saved context and its queue only.
pub proof fn lemma_committed<D: TaskDescCore>(node: Node<D>, queue: usize) where D::Owned: HasCtx
    ensures
        committed(node, queue).payload.spec_owned().has_ctx(),
        committed(node, queue).payload.spec_owned().spec_external_queue() == queue,
        committed(node, queue).alloc_wk == node.alloc_wk,
        committed(node, queue).oversized == node.oversized,
        committed(node, queue).payload.stack() == node.payload.stack(),
        committed(node, queue).payload.root() == node.payload.root(),
        committed(node, queue).payload.word() == node.payload.word(),
        committed(node, queue).home() == node.home(),
{
    let o = node.payload.spec_owned();
    o.commit_gives_ctx();
    o.committed_as_ctx().queue_is_separate(queue);
    node.payload.owned_is_separate(o.committed_as_ctx().with_external_queue(queue));
}

/// A new task, and the top of its stack.
pub fn new_task<S: SchedulerSystem, F: FnOnce(usize) -> StackMem>(
    sched: &mut Scheduler<S>,
    wk: usize,
    has_handle: bool,
    queue: usize,
    make: F,
) -> (r: (SuspendedTaskToken, usize)) where <S::Desc as TaskDescCore>::Owned: HasCtx
    requires
        can_alloc(*old(sched), wk, make),
        forall|after: S::Pool, node: Node<S::Desc>| #[trigger]
            gets_node(*old(sched), after, wk, has_handle, make, node) ==> node.payload.stack().fits(),
    ensures
        exists|node: Node<S::Desc>|
            {
                &&& #[trigger] new_task_at(
                    *old(sched),
                    *final(sched),
                    wk,
                    has_handle,
                    make,
                    node,
                    r.0.ptr(),
                    queue,
                )
                &&& r.1 == node.payload.stack().spec_top()
            },
{
    let token = sched.alloc_task(wk, has_handle, make);
    let desc: usize = token.desc();
    let ghost node = sched.tasks@[desc];
    assert(gets_node(*old(sched), sched.task_pool, wk, has_handle, make, node));
    let ghost allocated = *sched;
    assert(allocated.tasks@ =~= old(sched).tasks@.insert(desc, node));
    let slot = sched.tasks.get_mut(desc);
    let top: usize = slot.payload.stack_top();
    slot.payload.owned_mut().commit_as_ctx();
    proof {
        node.payload.owned_is_separate(node.payload.spec_owned().committed_as_ctx());
    }
    slot.payload.owned_mut().set_external_queue(queue);
    proof {
        lemma_committed(node, queue);
        assert(sched.tasks@ =~= old(sched).tasks@.insert(desc, committed(node, queue)));
        assert forall|p: usize| sched.tasks@.dom().contains(p) implies (
        #[trigger] sched.tasks@[p]).home() < sched.workers@.len() by {
            assert(allocated.tasks@.dom().contains(p));
            assert(allocated.tasks@[p].home() < allocated.workers@.len());
        }
    }
    let r = (token, top);
    assert(new_task_at(*old(sched), *sched, wk, has_handle, make, node, r.0.ptr(), queue));
    r
}

// ---------------------------------------------------------------------------
// spawn
// ---------------------------------------------------------------------------

/// A task about to be started: its handle, where its closure is to be written,
/// and where the stack that it runs on begins.
pub struct SpawnPlan<S: SchedulerSystem, T> {
    pub handle: JoinHandle<S, T>,
    pub closure: usize,
    pub exec_top: usize,
}

/// First half of starting a task at once: allocates it and lays out its stack.
/// The switch is made to `exec_top`; its second half, on the new stack,
/// queues the task that was left, for others to steal
/// ([`enter_land`](crate::resumable::stackful::suspended::enter_land)).
pub fn spawn<S: SchedulerSystem, T, F: FnOnce(usize) -> StackMem>(
    sched: &mut Scheduler<S>,
    wk: usize,
    queue: usize,
    f: Layout,
    r: Layout,
    make: F,
) -> (plan: SpawnPlan<S, T>) where <S::Desc as TaskDescCore>::Owned: HasCtx
    requires
        f.wf(),
        r.wf(),
        can_alloc(*old(sched), wk, make),
        forall|after: S::Pool, node: Node<S::Desc>| #[trigger]
            gets_node(*old(sched), after, wk, true, make, node) ==> node.payload.stack().fits()
                && node.payload.stack().spec_top() >= r.size,
    ensures
        exists|node: Node<S::Desc>|
            {
                let top = node.payload.stack().spec_top();
                &&& #[trigger] new_task_at(
                    *old(sched),
                    *final(sched),
                    wk,
                    true,
                    make,
                    node,
                    plan.handle.desc,
                    queue,
                )
                &&& plan.closure == closure_addr(top, f, r)
                &&& plan.handle.result_ptr == result_addr(top, r)
                &&& plan.exec_top == common_thread::rounded_down(
                    plan.closure as int,
                    STACK_ALIGN as int,
                )
            },
        stackful_desc::is_stackful_at(final(sched).tasks@, plan.handle.desc),
{
    let (token, top) = new_task(sched, wk, true, queue, make);
    let desc: usize = token.into_raw();
    let ghost node = choose|node: Node<S::Desc>|
        {
            &&& #[trigger] new_task_at(*old(sched), *sched, wk, true, make, node, desc, queue)
            &&& top == node.payload.stack().spec_top()
        };
    assert(gets_node(*old(sched), sched.task_pool, wk, true, make, node));
    let (closure, result) = branch_layout(top, f, r);
    proof {
        lemma_stack_align();
        lemma_committed(node, queue);
    }
    let exec_top: usize = align_down(closure, STACK_ALIGN);
    let plan = SpawnPlan { handle: JoinHandle::new(desc, result), closure, exec_top };
    assert(new_task_at(*old(sched), *sched, wk, true, make, node, plan.handle.desc, queue));
    plan
}

// ---------------------------------------------------------------------------
// parallel_call
// ---------------------------------------------------------------------------

/// Branches of one worker that ran without being stolen: their contexts were
/// never switched to, so that they can be used again as they are.
pub struct BranchWarmPool {
    descs: Vec<usize>,
}

impl View for BranchWarmPool {
    type V = Seq<usize>;

    closed spec fn view(&self) -> Seq<usize> {
        self.descs@
    }
}

impl BranchWarmPool {
    /// An empty pool.
    pub fn new() -> (r: Self)
        ensures
            r@ == Seq::<usize>::empty(),
    {
        BranchWarmPool { descs: Vec::new() }
    }

    /// Takes the branch that was put away last.
    pub fn branch_warm_pop(&mut self) -> (r: Option<usize>)
        ensures
            match r {
                Some(desc) => {
                    &&& old(self)@.len() > 0
                    &&& desc == old(self)@.last()
                    &&& final(self)@ == old(self)@.drop_last()
                },
                None => old(self)@.len() == 0 && final(self)@ == old(self)@,
            },
    {
        self.descs.pop()
    }

    /// Puts a branch away.
    pub fn branch_warm_push(&mut self, desc: usize)
        ensures
            final(self)@ == old(self)@.push(desc),
    {
        self.descs.push(desc);
    }
}

/// A branch on offer: its task, where its closure is to be written, where its
/// result will lie, and where what it runs is named. A branch that was not
/// used before comes with the frame to be written at its context.
pub struct BranchPlan<S: SchedulerSystem, T> {
    pub handle: JoinHandle<S, T>,
    pub closure: usize,
    pub dispatch_slot: usize,
    pub frame: Option<(Context, Vec<usize>)>,
}

/// Whether a stack with the top `top` can hold a branch.
pub open spec fn hosts_branch<C: ContextPolicy>(
    arch: Arch,
    stack: StackMem,
    f: Layout,
    r: Layout,
) -> bool {
    let top = stack.spec_top();
    &&& stack.fits()
    &&& top >= DISPATCH_SLOT_SIZE + r.size
    &&& fits_header(f, r) ==> top >= BRANCH_HEADER_BUDGET
    &&& branch_exec_top(top, f, r) >= STACK_ALIGN + WORD * C::frame_words(arch)
}

/// Whether a branch is taken from the warm pool.
pub open spec fn is_warm(warm: Seq<usize>, f: Layout, r: Layout) -> bool {
    fits_header(f, r) && warm.len() > 0
}

/// Whether the addresses of a plan are those of a branch on a stack with the
/// top `top`.
pub open spec fn plan_lies_at<S: SchedulerSystem, T>(
    plan: BranchPlan<S, T>,
    top: int,
    f: Layout,
    r: Layout,
) -> bool {
    &&& plan.dispatch_slot == top - DISPATCH_SLOT_SIZE
    &&& plan.closure == closure_addr(top - DISPATCH_SLOT_SIZE, f, r)
    &&& plan.handle.result_ptr == result_addr(top - DISPATCH_SLOT_SIZE, r)
}

/// The context of a new branch.
pub open spec fn branch_ctx<C: ContextPolicy>(
    arch: Arch,
    top: int,
    f: Layout,
    r: Layout,
) -> int {
    let exec_top = branch_exec_top(top, f, r);
    exec_top - WORD * C::frame_words(arch)
}

/// Whether `b` is `a` but that worker `wk` runs `c` next.
pub open spec fn offered<S: SchedulerSystem>(
    a: Seq<UltWorker<S>>,
    b: Seq<UltWorker<S>>,
    wk: int,
    c: usize,
) -> bool {
    &&& b == a.update(wk, b[wk])
    &&& b[wk].deque.wf()
    &&& b[wk].deque.order() == seq![c] + a[wk].deque.order()
    &&& b[wk].deque.contents() == S::RunQueue::after_push(a[wk].deque.contents(), c)
    &&& b[wk].same_but_queue(a[wk])
}

/// First part of a fork: the second branch becomes a task that is the next to
/// run on worker `wk`, so that it can be stolen, while the caller goes on with
/// the first branch. `entry` is what the branch enters its stack through.
pub fn parallel_call<S: StackfulWorkerSystem, T, F: FnOnce(usize) -> StackMem>(
    sched: &mut Scheduler<S>,
    wk: usize,
    warm: &mut BranchWarmPool,
    arch: Arch,
    entry: Entry,
    queue: usize,
    f: Layout,
    r: Layout,
    make: F,
) -> (plan: BranchPlan<S, T>) where <S::Desc as TaskDescCore>::Owned: HasCtx
    requires
        f.wf(),
        r.wf(),
        wk < old(sched).workers@.len(),
        old(sched).workers@[wk as int].deque.wf(),
        is_warm(old(warm)@, f, r) ==> {
            &&& old(sched).tasks@.dom().contains(old(warm)@.last())
            &&& hosts_branch::<S::Ctx>(
                arch,
                old(sched).tasks@[old(warm)@.last()].payload.stack(),
                f,
                r,
            )
        },
        !is_warm(old(warm)@, f, r) ==> {
            &&& can_alloc(*old(sched), wk, make)
            &&& forall|after: S::Pool, node: Node<S::Desc>| #[trigger]
                gets_node(*old(sched), after, wk, true, make, node) ==> hosts_branch::<S::Ctx>(
                    arch,
                    node.payload.stack(),
                    f,
                    r,
                )
        },
    ensures
        offered(old(sched).workers@, final(sched).workers@, wk as int, plan.handle.desc),
        final(sched).workers@[wk as int].deque.order() == seq![plan.handle.desc] + old(
            sched,
        ).workers@[wk as int].deque.order(),
        plan.frame is None <==> old(warm)@.len() > 0 && f.size + f.align + r.size + r.align + 8
            <= 256,
        if is_warm(old(warm)@, f, r) {
            &&& plan.handle.desc == old(warm)@.last()
            &&& final(warm)@ == old(warm)@.drop_last()
            &&& plan.frame is None
            &&& plan_lies_at(
                plan,
                old(sched).tasks@[plan.handle.desc].payload.stack().spec_top(),
                f,
                r,
            )
            &&& *final(sched) == (Scheduler::<S> { workers: final(sched).workers, ..*old(sched) })
        } else {
            &&& final(warm)@ == old(warm)@
            &&& exists|node: Node<S::Desc>, made: Scheduler<S>|
                {
                    let top = node.payload.stack().spec_top();
                    &&& #[trigger] new_task_at(
                        *old(sched),
                        made,
                        wk,
                        true,
                        make,
                        node,
                        plan.handle.desc,
                        queue,
                    )
                    &&& plan_lies_at(plan, top, f, r)
                    &&& plan.frame matches Some((ctx, words)) && {
                        &&& ctx.0 == branch_ctx::<S::Ctx>(arch, top, f, r)
                        &&& words@ == S::Ctx::entry_frame(arch, entry)
                        &&& final(sched).tasks@ == stackful_desc::with_ctx_at(
                            made.tasks@,
                            plan.handle.desc,
                            ctx.0,
                        )
                    }
                    &&& final(sched).task_pool == made.task_pool
                    &&& final(sched).tasks.wf()
                    &&& stackful_worker::same_but_workers_and_tasks(made, *final(sched))
                }
        },
{
    let cached: Option<usize> = if header_fits(f, r) {
        warm.branch_warm_pop()
    } else {
        None
    };
    match cached {
        Some(desc) => {
            let top: usize = sched.tasks.get(desc).payload.stack_top();
            let (closure, result) = branch_layout(top - DISPATCH_SLOT_SIZE, f, r);
            sched.workers[wk].push(SuspendedTaskToken::from_raw(desc));
            assert(sched.workers@ =~= old(sched).workers@.update(
                wk as int,
                sched.workers@[wk as int],
            ));
            BranchPlan {
                handle: JoinHandle::new(desc, result),
                closure,
                dispatch_slot: top - DISPATCH_SLOT_SIZE,
                frame: None,
            }
        },
        None => {
            assert(!is_warm(old(warm)@, f, r));
            let (token, top) = new_task(sched, wk, true, queue, make);
            let desc: usize = token.desc();
            let ghost node = choose|node: Node<S::Desc>|
                {
                    &&& #[trigger] new_task_at(*old(sched), *sched, wk, true, make, node, desc, queue)
                    &&& top == node.payload.stack().spec_top()
                };
            let ghost made = *sched;
            assert(gets_node(*old(sched), sched.task_pool, wk, true, make, node));
            assert(hosts_branch::<S::Ctx>(arch, node.payload.stack(), f, r));
            let (closure, result) = branch_layout(top - DISPATCH_SLOT_SIZE, f, r);
            proof {
                lemma_stack_align();
                lemma_committed(node, queue);
            }
            let exec_top: usize = if header_fits(f, r) {
                align_down(top - BRANCH_HEADER_BUDGET, STACK_ALIGN)
            } else {
                align_down(closure, STACK_ALIGN)
            };
            let (ctx, words) = S::Ctx::make_context(arch, exec_top, entry);
            token.init_saved_context(&mut sched.tasks, ctx.0);
            let ghost before_push = *sched;
            sched.workers[wk].push(token);
            assert(sched.workers@ =~= old(sched).workers@.update(
                wk as int,
                sched.workers@[wk as int],
            ));
            let plan = BranchPlan {
                handle: JoinHandle::new(desc, result),
                closure,
                dispatch_slot: top - DISPATCH_SLOT_SIZE,
                frame: Some((ctx, words)),
            };
            assert(new_task_at(*old(sched), made, wk, true, make, node, plan.handle.desc, queue));
            plan
        },
    }
}

/// What the caller does about the second branch once it is back from the
/// first.
pub enum BranchEnd<D> {
    /// Nobody stole it: call its closure. A descriptor that did not enter a
    /// pool is to be freed.
    RunInline(Option<Node<D>>),
    /// Somebody has it: wait for its result.
    Join,
}

/// Second part of a fork: takes the second branch back, if it is still there.
/// Its descriptor is put away to be used again when its closure and result fit
/// into the part set aside for them. Something else that was on top goes back.
pub fn parallel_call_end<S: SchedulerSystem>(
    sched: &mut Scheduler<S>,
    wk: usize,
    warm: &mut BranchWarmPool,
    desc: usize,
    fits: bool,
) -> (r: BranchEnd<S::Desc>)
    requires
        old(sched).pools_wf(),
        wk < old(sched).workers@.len(),
        old(sched).workers@[wk as int].deque.wf(),
        old(sched).tasks@.dom().contains(desc),
        !old(sched).tasks@[desc].payload.root(),
    ensures
        final(sched).workers@[wk as int].deque.wf(),
        final(sched).workers@[wk as int].same_but_queue(old(sched).workers@[wk as int]),
        final(sched).workers@ == old(sched).workers@.update(
            wk as int,
            final(sched).workers@[wk as int],
        ),
        ({
            let order = old(sched).workers@[wk as int].deque.order();
            let after = final(sched).workers@[wk as int].deque.order();
            match r {
                BranchEnd::RunInline(freed) => {
                    &&& order.len() > 0
                    &&& order[0] == desc
                    &&& after == order.drop_first()
                    &&& final(sched).workers@[wk as int].deque.contents() == S::RunQueue::after_pop(
                        old(sched).workers@[wk as int].deque.contents(),
                    )
                    &&& if fits {
                        &&& freed is None
                        &&& final(warm)@ == old(warm)@.push(desc)
                        &&& *final(sched) == (Scheduler::<S> {
                            workers: final(sched).workers,
                            ..*old(sched)
                        })
                    } else {
                        &&& final(warm)@ == old(warm)@
                        &&& final(sched).tasks@ == old(sched).tasks@.remove(desc)
                        &&& pool::node_returned(
                            old(sched).task_pool,
                            final(sched).task_pool,
                            wk,
                            old(sched).tasks@[desc],
                            freed,
                        )
                        &&& final(sched).pools_wf()
                        &&& *final(sched) == (Scheduler::<S> {
                            workers: final(sched).workers,
                            tasks: final(sched).tasks,
                            task_pool: final(sched).task_pool,
                            ..*old(sched)
                        })
                    }
                },
                BranchEnd::Join => {
                    &&& order.len() == 0 || order[0] != desc
                    &&& after == order
                    &&& final(sched).workers@[wk as int].deque.contents()
                        == system::after_put_back::<S>(
                        old(sched).workers@[wk as int].deque.contents(),
                        order,
                    )
                    &&& final(warm)@ == old(warm)@
                    &&& *final(sched) == (Scheduler::<S> {
                        workers: final(sched).workers,
                        ..*old(sched)
                    })
                },
            }
        }),
{
    let ghost order = sched.workers@[wk as int].deque.order();
    match sched.workers[wk].try_pop() {
        Some(popped) => if popped.desc() == desc {
            let end = if fits {
                warm.branch_warm_push(popped.into_raw());
                BranchEnd::RunInline(None)
            } else {
                BranchEnd::RunInline(sched.free_task(wk, popped.into_raw()))
            };
            assert(sched.workers@ =~= old(sched).workers@.update(
                wk as int,
                sched.workers@[wk as int],
            ));
            end
        } else {
            sched.workers[wk].push(popped);
            assert(sched.workers@[wk as int].deque.order() =~= order);
            assert(sched.workers@ =~= old(sched).workers@.update(
                wk as int,
                sched.workers@[wk as int],
            ));
            BranchEnd::Join
        },
        None => {
            assert(sched.workers@ =~= old(sched).workers@.update(
                wk as int,
                sched.workers@[wk as int],
            ));
            BranchEnd::Join
        },
    }
}

// ---------------------------------------------------------------------------
// Leaving a task for good
// ---------------------------------------------------------------------------

/// How a task that is done is left.
#[derive(Clone, Copy, PartialEq, Eq, Structural, Debug)]
pub enum ExitKind {
    /// Its joiner waits: switch to it directly. The result is kept.
    Handoff,
    /// Nobody will ask for the result: it is dropped on the task's own stack.
    Abandoned,
    /// The result is kept; who waits is settled after the switch.
    Settle,
}

/// How a task in the join state `s` is left. A parked joiner and a result that
/// was given up cannot change any more; everything else still can.
pub open spec fn exit_kind(s: common_desc::JoinState) -> ExitKind {
    match s {
        common_desc::JoinState::SyncJoiner(_) => ExitKind::Handoff,
        common_desc::JoinState::Detached => ExitKind::Abandoned,
        _ => ExitKind::Settle,
    }
}

/// First half of leaving the task that runs on worker `wk` for good.
pub fn exit_with_result<S: StackfulWorkerSystem>(sched: &mut Scheduler<S>, wk: usize) -> (r: (
    ExitKind,
    PendingSwitch,
)) where <S::Desc as TaskDescCore>::Owned: HasCtx
    requires
        wk < old(sched).workers@.len(),
        old(sched).tasks.wf(),
        old(sched).workers@[wk as int].running() is Some,
        old(sched).tasks@.dom().contains(old(sched).workers@[wk as int].running()->0),
        match common_thread::join_state_at(
            old(sched).tasks@,
            old(sched).workers@[wk as int].running()->0,
        ) {
            common_desc::JoinState::SyncJoiner(j) => {
                &&& stackful_desc::is_stackful_at(old(sched).tasks@, j)
                &&& stackful_desc::ctx_at(old(sched).tasks@, j) != 0
            },
            _ => stackful_worker::can_suspend(*old(sched), wk as int),
        },
    ensures
        r.0 == exit_kind(
            common_thread::join_state_at(
                old(sched).tasks@,
                old(sched).workers@[wk as int].running()->0,
            ),
        ),
        r.1.to.0 == stackful_desc::ctx_at(old(sched).tasks@, r.1.next.ptr()),
        final(sched).tasks@ == stackful_desc::with_ctx_at(old(sched).tasks@, r.1.next.ptr(), 0),
        stackful_worker::same_but_workers_and_tasks(*old(sched), *final(sched)),
        match common_thread::join_state_at(
            old(sched).tasks@,
            old(sched).workers@[wk as int].running()->0,
        ) {
            common_desc::JoinState::SyncJoiner(j) => {
                &&& r.1.next.ptr() == j
                &&& final(sched).workers == old(sched).workers
            },
            _ => {
                &&& system::picked(
                    old(sched).workers@[wk as int],
                    final(sched).workers@[wk as int],
                    old(sched).tasks@,
                    r.1.next.ptr(),
                )
                &&& final(sched).workers@ == old(sched).workers@.update(
                    wk as int,
                    final(sched).workers@[wk as int],
                )
            },
        },
{
    let cur: usize = sched.workers[wk].cur_task();
    match sched.tasks.get(cur).payload.try_take_handoff_target() {
        Some(joiner) => {
            let p = sched.exit_to_cont(joiner);
            (ExitKind::Handoff, p)
        },
        None => {
            let kind = if sched.tasks.get(cur).payload.is_abandoned() {
                ExitKind::Abandoned
            } else {
                ExitKind::Settle
            };
            let p = sched.exit_to_sched(wk);
            (kind, p)
        },
    }
}

/// What a task that ended with `val` leaves at the place for its result: the
/// value, or the payload of its panic.
pub open spec fn left_behind<T>(val: Result<T, usize>) -> StackResult<T> {
    match val {
        Ok(v) => StackResult::Value(v),
        Err(e) => StackResult::Panicked(e),
    }
}

/// What a task that is left as `kind` says keeps of `val`, or what is dropped.
pub open spec fn kept_or_dropped<T>(kind: ExitKind, val: Result<T, usize>) -> Result<
    StackResult<T>,
    Result<T, usize>,
> {
    if kind == ExitKind::Abandoned {
        Err(val)
    } else {
        Ok(left_behind(val))
    }
}

/// Settles what becomes of what a task ended with, before it is left as `kind`
/// says: it is written to the place for the result, or handed back to be
/// dropped when nobody will ask for it.
pub fn keep_result<T>(kind: ExitKind, val: Result<T, usize>) -> (r: Result<
    StackResult<T>,
    Result<T, usize>,
>)
    ensures
        r == kept_or_dropped(kind, val),
{
    match kind {
        ExitKind::Abandoned => Err(val),
        _ => Ok(
            match val {
                Ok(v) => StackResult::Value(v),
                Err(e) => StackResult::Panicked(e),
            },
        ),
    }
}

/// Joining gives what the task ended with: unless the handle was given up, the
/// task leaves behind what its joiner takes, a value as a value and a panic as
/// a panic.
pub proof fn law_join_gives_what_the_task_ended_with<T>(
    s: common_desc::JoinState,
    val: Result<T, usize>,
)
    ensures
        s is Detached <==> kept_or_dropped(exit_kind(s), val) is Err,
        kept_or_dropped(exit_kind(s), val) matches Ok(left) ==> common_thread::joined(left) == val,
        kept_or_dropped(exit_kind(s), val) matches Err(dropped) ==> dropped == val,
{
}

/// What is left to do once a task was left for good.
pub enum ExitEnd<D> {
    /// Nothing.
    Nothing,
    /// Wake the waker in the box at this address.
    Wake(usize),
    /// The handle was dropped meanwhile: drop the result on the stack that was
    /// left. A descriptor that did not enter a pool is to be freed.
    DropResult(Option<Node<D>>),
    /// The descriptor was given back. One that did not enter a pool is to be
    /// freed.
    Freed(Option<Node<D>>),
}

/// The tasks after the one at `left` has finished and, where it was joined by
/// a polled task, that one was asked whether it is parked.
pub open spec fn settled_tasks<D: TaskDescCore>(
    tasks: Map<usize, Node<D>>,
    left: usize,
) -> Map<usize, Node<D>> {
    let done = common_thread::with_word_at(tasks, left, JS_FINISHED);
    match common_thread::join_state_at(tasks, left) {
        common_desc::JoinState::AsyncJoiner(j) => done.insert(
            j,
            Node { payload: done[j].payload.after_claim(), ..done[j] },
        ),
        _ => done,
    }
}

/// The continuation that a finished task makes ready.
pub open spec fn resumed_by<D: TaskDescCore>(
    tasks: Map<usize, Node<D>>,
    left: usize,
) -> Option<usize> {
    match common_thread::join_state_at(tasks, left) {
        common_desc::JoinState::SyncJoiner(j) => Some(j),
        common_desc::JoinState::AsyncJoiner(j) => if tasks[j].payload.claims_async_joiner() {
            Some(j)
        } else {
            None
        },
        _ => None,
    }
}

/// A joiner is never stranded by a task that exits and settles. Told by the words
/// alone: if a joiner is parked in the task's join word, that joiner is made
/// ready; if a task that polls is named there and is parked, that one is, and it
/// is being polled from then on; one that is being polled is told to poll again.
/// The task itself has finished, and no other task is touched.
pub proof fn law_settling_exit_strands_no_joiner<D: WakerTaskDesc>(
    tasks: Map<usize, Node<D>>,
    left: usize,
    other: usize,
)
    requires
        tasks.dom().contains(left),
        tasks[left].payload.word() != (left + 2) as usize,
    ensures
        ({
            let word = tasks[left].payload.word();
            let j = (word - 2) as usize;
            let b = settled_tasks(tasks, left);
            &&& word > 7 && word % 8 == 0 ==> resumed_by(tasks, left) == Some(word)
            &&& word > 7 && word % 8 == 2 ==> resumed_by(tasks, left) == (
            if tasks[j].payload.wake_word() % 4 == 2 {
                Some(j)
            } else {
                None
            })
            &&& word <= 2 || word % 8 == 1 ==> resumed_by(tasks, left) is None
            &&& b[left].payload.word() == 1
            &&& b[left].payload.stack() == tasks[left].payload.stack()
            &&& b[left].payload.spec_owned() == tasks[left].payload.spec_owned()
            &&& word > 7 && word % 8 == 2 ==> {
                &&& tasks[j].payload.wake_word() % 4 == 2 ==> b[j].payload
                    == tasks[j].payload.with_wake_word((tasks[j].payload.wake_word() - 1) as u64)
                &&& tasks[j].payload.wake_word() % 4 == 1 ==> b[j].payload
                    == tasks[j].payload.with_wake_word((tasks[j].payload.wake_word() + 2) as u64)
                &&& other != left && other != j ==> b[other] == tasks[other]
            }
            &&& (word <= 2 || word % 8 < 2) && other != left ==> b[other] == tasks[other]
        }),
{
    let word = tasks[left].payload.word();
    common_desc::law_join_word_names_the_waiter(word);
    tasks[left].payload.word_is_separate(JS_FINISHED);
    if word > 7 && word % 8 == 2 {
        let j = (word - 2) as usize;
        tasks[j].payload.law_claiming_is_waking();
    }
}

/// How a task is left, told by its join word alone: directly to its joiner when
/// one is parked there, dropping the result when the handle was given up, and
/// otherwise by settling. What it ended with is kept unless the handle was given
/// up: a value as a value, a panic as a panic.
pub proof fn law_exit_follows_the_join_word<T>(word: usize, v: T, e: usize)
    requires
        word <= 2 || word > 7 && word % 8 <= 2,
    ensures
        exit_kind(common_desc::join_state_of(word)) == (if word == 2 {
            ExitKind::Abandoned
        } else if word > 7 && word % 8 == 0 {
            ExitKind::Handoff
        } else {
            ExitKind::Settle
        }),
        kept_or_dropped::<T>(ExitKind::Abandoned, Ok(v)) == Err::<StackResult<T>, Result<T, usize>>(
            Ok(v),
        ),
        kept_or_dropped::<T>(ExitKind::Abandoned, Err(e)) == Err::<
            StackResult<T>,
            Result<T, usize>,
        >(Err(e)),
        forall|kind: ExitKind|
            kind != ExitKind::Abandoned ==> #[trigger] kept_or_dropped::<T>(kind, Ok(v)) == Ok::<
                StackResult<T>,
                Result<T, usize>,
            >(StackResult::Value(v)) && kept_or_dropped::<T>(kind, Err(e)) == Ok::<
                StackResult<T>,
                Result<T, usize>,
            >(StackResult::Panicked(e)),
{
    common_desc::law_join_word_names_the_waiter(word);
}

/// Second half of a direct switch to the joiner: the task that was left has
/// finished.
pub fn exit_handoff_land<S: SchedulerSystem>(
    sched: &mut Scheduler<S>,
    wk: usize,
    next: Transferred<SuspendedTaskToken>,
) where <S::Desc as TaskDescCore>::Owned: HasCtx
    requires
        wk < old(sched).workers@.len(),
        old(sched).tasks.wf(),
        old(sched).workers@[wk as int].running() is Some,
        old(sched).tasks@.dom().contains(old(sched).workers@[wk as int].running()->0),
    ensures
        stackful_worker::runs_instead(
            old(sched).workers@,
            final(sched).workers@,
            wk as int,
            next.ptr(),
        ),
        final(sched).tasks@ == common_thread::with_word_at(
            old(sched).tasks@,
            old(sched).workers@[wk as int].running()->0,
            JS_FINISHED,
        ),
        stackful_worker::same_but_workers_and_tasks(*old(sched), *final(sched)),
{
    let left: usize = sched.exit_shim(wk, next);
    let node = sched.tasks.get_mut(left);
    node.payload.commit_finished();
}

/// Second half of leaving a task whose result was given up: its descriptor
/// goes back to the pool.
pub fn exit_abandoned_land<S: SchedulerSystem>(
    sched: &mut Scheduler<S>,
    wk: usize,
    next: Transferred<SuspendedTaskToken>,
) -> (r: ExitEnd<S::Desc>) where <S::Desc as TaskDescCore>::Owned: HasCtx
    requires
        wk < old(sched).workers@.len(),
        old(sched).pools_wf(),
        old(sched).workers@[wk as int].running() is Some,
        old(sched).tasks@.dom().contains(old(sched).workers@[wk as int].running()->0),
        !old(sched).tasks@[old(sched).workers@[wk as int].running()->0].payload.root(),
    ensures
        stackful_worker::runs_instead(
            old(sched).workers@,
            final(sched).workers@,
            wk as int,
            next.ptr(),
        ),
        final(sched).tasks@ == old(sched).tasks@.remove(
            old(sched).workers@[wk as int].running()->0,
        ),
        r matches ExitEnd::Freed(freed) && pool::node_returned(
            old(sched).task_pool,
            final(sched).task_pool,
            wk,
            old(sched).tasks@[old(sched).workers@[wk as int].running()->0],
            freed,
        ),
        final(sched).pools_wf(),
        *final(sched) == (Scheduler::<S> {
            workers: final(sched).workers,
            tasks: final(sched).tasks,
            task_pool: final(sched).task_pool,
            ..*old(sched)
        }),
{
    let left: usize = sched.exit_shim(wk, next);
    assert(sched.pools_wf());
    ExitEnd::Freed(sched.free_task(wk, left))
}

/// Second half of leaving any other task: the result is published, and who
/// waits is found out in the same step.
pub fn exit_settle_land<S: SchedulerSystem>(
    sched: &mut Scheduler<S>,
    wk: usize,
    next: Transferred<SuspendedTaskToken>,
) -> (r: ExitEnd<S::Desc>) where <S::Desc as TaskDescCore>::Owned: HasCtx
    requires
        wk < old(sched).workers@.len(),
        old(sched).pools_wf(),
        old(sched).workers@[wk as int].deque.wf(),
        old(sched).workers@[wk as int].running() is Some,
        old(sched).tasks@.dom().contains(old(sched).workers@[wk as int].running()->0),
        !old(sched).tasks@[old(sched).workers@[wk as int].running()->0].payload.root(),
        match common_thread::join_state_at(
            old(sched).tasks@,
            old(sched).workers@[wk as int].running()->0,
        ) {
            common_desc::JoinState::Finished => false,
            common_desc::JoinState::AsyncJoiner(j) => {
                &&& j != old(sched).workers@[wk as int].running()->0
                &&& old(sched).tasks@.dom().contains(j)
            },
            _ => true,
        },
    ensures
        ({
            let a = *old(sched);
            let b = *final(sched);
            let u = a.workers@[wk as int];
            let v = b.workers@[wk as int];
            let left = u.running()->0;
            let s = common_thread::join_state_at(a.tasks@, left);
            &&& b.pools_wf()
            &&& v.running() == Some(next.ptr())
            &&& v.deque.wf()
            &&& v.deque.order() == (match resumed_by(a.tasks@, left) {
                Some(c) => seq![c] + u.deque.order(),
                None => u.deque.order(),
            })
            &&& v.deque.contents() == (match resumed_by(a.tasks@, left) {
                Some(c) => S::RunQueue::after_push(u.deque.contents(), c),
                None => u.deque.contents(),
            })
            &&& s matches common_desc::JoinState::SyncJoiner(j) ==> v.deque.order() == seq![j]
                + u.deque.order()
            &&& s matches common_desc::JoinState::AsyncJoiner(j) ==> v.deque.order() == (
            if a.tasks@[j].payload.claims_async_joiner() {
                seq![j] + u.deque.order()
            } else {
                u.deque.order()
            })
            &&& s is Running || s is Detached || s is AsyncWaker ==> v.deque.order()
                == u.deque.order()
            &&& !(s is Detached) ==> b.tasks@[left].payload.word() == 1
            &&& v.same_but_queue(UltWorker { cur_task: v.cur_task, ..u })
            &&& b.workers@ == a.workers@.update(wk as int, v)
            &&& b == (Scheduler::<S> {
                workers: b.workers,
                tasks: b.tasks,
                task_pool: b.task_pool,
                ..a
            })
            &&& match s {
                common_desc::JoinState::Detached => {
                    &&& b.tasks@ == a.tasks@.remove(left)
                    &&& r matches ExitEnd::DropResult(freed) && pool::node_returned(
                        a.task_pool,
                        b.task_pool,
                        wk,
                        settled_tasks(a.tasks@, left)[left],
                        freed,
                    )
                },
                common_desc::JoinState::AsyncWaker(w) => {
                    &&& b.tasks@ == settled_tasks(a.tasks@, left)
                    &&& b.task_pool == a.task_pool
                    &&& r == ExitEnd::<S::Desc>::Wake(w)
                },
                _ => {
                    &&& b.tasks@ == settled_tasks(a.tasks@, left)
                    &&& b.task_pool == a.task_pool
                    &&& r is Nothing
                },
            }
        }),
{
    let left: usize = sched.exit_shim(wk, next);
    let ghost before = *old(sched);
    let ghost state = common_thread::join_state_at(before.tasks@, left);
    proof {
        before.tasks@[left].payload.word_is_separate(JS_FINISHED);
    }
    let node = sched.tasks.get_mut(left);
    let action = node.payload.finish_and_settle();
    let ghost done = common_thread::with_word_at(before.tasks@, left, JS_FINISHED);
    assert(sched.tasks@ == done);
    assert forall|p: usize| sched.tasks@.dom().contains(p) implies (
    #[trigger] sched.tasks@[p]).home() < sched.workers@.len() by {
        assert(before.tasks@.dom().contains(p));
        assert(before.tasks@[p].home() < before.workers@.len());
    }
    let end = match action {
        ExitAction::Nothing => ExitEnd::Nothing,
        ExitAction::Resume(c) => {
            sched.workers[wk].push(c);
            ExitEnd::Nothing
        },
        ExitAction::Wake(w) => ExitEnd::Wake(w),
        ExitAction::Claim(j) => {
            let joiner = sched.tasks.get_mut(j);
            let claimed = joiner.payload.try_claim_async_joiner();
            assert forall|p: usize| sched.tasks@.dom().contains(p) implies (
            #[trigger] sched.tasks@[p]).home() < sched.workers@.len() by {
                assert(done.dom().contains(p));
                assert(before.tasks@[p].home() < before.workers@.len());
            }
            if claimed {
                sched.workers[wk].push(SuspendedTaskToken::from_raw(j));
            }
            ExitEnd::Nothing
        },
        ExitAction::Reclaim => {
            let freed = sched.free_task(wk, left);
            assert(sched.tasks@ =~= before.tasks@.remove(left));
            ExitEnd::DropResult(freed)
        },
    };
    assert(sched.workers@ =~= before.workers@.update(wk as int, sched.workers@[wk as int]));
    end
}

// ---------------------------------------------------------------------------
// Waiting for a result
// ---------------------------------------------------------------------------

/// How a joiner begins.
pub enum JoinBegin {
    /// The result is there: take it.
    Ready,
    /// The task still runs: make this switch, which may be called off.
    Suspend(PendingSwitch),
}

impl<S: StackfulWorkerSystem, T> JoinHandle<S, T> where <S::Desc as TaskDescCore>::Owned: HasCtx {
    /// First half of waiting for the result on worker `wk`.
    pub fn join(&self, sched: &mut Scheduler<S>, wk: usize) -> (r: JoinBegin)
        requires
            old(sched).tasks@.dom().contains(self.desc),
            !(common_thread::join_state_at(old(sched).tasks@, self.desc) is Finished)
                ==> stackful_worker::can_suspend(*old(sched), wk as int),
        ensures
            match r {
                JoinBegin::Ready => {
                    &&& common_thread::join_state_at(old(sched).tasks@, self.desc) is Finished
                    &&& *final(sched) == *old(sched)
                },
                JoinBegin::Suspend(p) => {
                    &&& !(common_thread::join_state_at(
                        old(sched).tasks@,
                        self.desc,
                    ) is Finished)
                    &&& p.next.ptr() == stackful_worker::pick_target(
                        old(sched).workers@[wk as int],
                        old(sched).tasks@,
                    )
                    &&& p.to.0 == stackful_desc::ctx_at(old(sched).tasks@, p.next.ptr())
                    &&& system::picked(
                        old(sched).workers@[wk as int],
                        final(sched).workers@[wk as int],
                        old(sched).tasks@,
                        p.next.ptr(),
                    )
                    &&& stackful_worker::only_worker_changed(
                        *old(sched),
                        *final(sched),
                        wk as int,
                    )
                },
            },
    {
        if sched.tasks.get(self.desc).payload.is_finished() {
            JoinBegin::Ready
        } else {
            JoinBegin::Suspend(sched.cond_suspend_to_sched(wk))
        }
    }

    /// Second half: the joiner was left with the context `prev`. It is
    /// registered with the task that it waits for; when that has finished
    /// meanwhile, the suspension is called off and the joiner goes on. A waker
    /// that was registered before is handed out to be dropped.
    pub fn join_land(
        &self,
        sched: &mut Scheduler<S>,
        wk: usize,
        prev: Context,
        next: SuspendedTaskToken,
    ) -> (r: (CondTransfer, Option<usize>))
        requires
            stackful_worker::can_leave(*old(sched), wk as int),
            old(sched).workers@[wk as int].deque.wf(),
            old(sched).tasks@.dom().contains(self.desc),
            self.desc != old(sched).workers@[wk as int].running()->0,
            stackful_desc::is_stackful_at(old(sched).tasks@, next.ptr()),
            next.ptr() != old(sched).workers@[wk as int].running()->0,
            old(sched).tasks@[next.ptr()].payload.root() ==> old(
                sched,
            ).workers@[wk as int].root_cont is None,
        ensures
            ({
                let a = *old(sched);
                let b = *final(sched);
                let joiner = a.workers@[wk as int].running()->0;
                let finished = common_thread::join_state_at(a.tasks@, self.desc) is Finished;
                &&& r.0 == CondTransfer::of(wk, !finished)
                &&& !finished ==> {
                    let parked = stackful_desc::with_ctx_at(a.tasks@, joiner, prev.0);
                    &&& r.1 == common_desc::held_waker(a.tasks@[self.desc].payload.word())
                    &&& stackful_worker::runs_instead(
                        a.workers@,
                        b.workers@,
                        wk as int,
                        next.ptr(),
                    )
                    &&& b.tasks@ == stackful_desc::with_ctx_at(
                        common_thread::with_word_at(parked, self.desc, joiner),
                        next.ptr(),
                        0,
                    )
                    &&& stackful_worker::same_but_workers_and_tasks(a, b)
                }
                &&& finished ==> r.1 is None && exists|mid: Scheduler<S>|
                    {
                        &&& #[trigger] stackful_worker::left_for(
                            a,
                            mid,
                            wk as int,
                            prev.0,
                            next.ptr(),
                        )
                        &&& stackful_worker::called_off(mid, b, wk as int, joiner)
                    }
            }),
    {
        let ghost a = *old(sched);
        let ghost joiner_ptr = a.workers@[wk as int].running()->0;
        proof {
            stackful_desc::lemma_ctx_at(a.tasks@, joiner_ptr, prev.0);
        }
        let joiner = sched.cond_suspend_shim(wk, prev, next);
        let ghost mid = *sched;
        assert(stackful_worker::left_for(a, mid, wk as int, prev.0, next.ptr()));
        assert(mid.tasks@[self.desc] == a.tasks@[self.desc]);
        assert(mid.tasks@[next.ptr()] == a.tasks@[next.ptr()]);
        let node = sched.tasks.get_mut(self.desc);
        match node.payload.try_register_joiner(joiner) {
            Ok(waker) => {
                proof {
                    mid.tasks@[self.desc].payload.word_is_separate(joiner_ptr);
                }
                let transfer = sched.cond_suspend_finish(wk, None);
                (transfer, waker)
            },
            Err(joiner) => {
                assert(sched.tasks@ =~= mid.tasks@);
                let transfer = sched.cond_suspend_finish(wk, Some(joiner));
                assert(stackful_worker::called_off(mid, *sched, wk as int, joiner_ptr));
                (transfer, None)
            },
        }
    }
}

/// The tasks once the one at `left` was left for good in favour of `next`, by
/// [`exit_with_result`] and the second half that its answer calls for; nobody
/// has given its handle up.
pub open spec fn exited_tasks<D: TaskDescCore>(
    tasks: Map<usize, Node<D>>,
    left: usize,
    next: usize,
) -> Map<usize, Node<D>> where D::Owned: HasCtx {
    let switched = stackful_desc::with_ctx_at(tasks, next, 0);
    match exit_kind(common_thread::join_state_at(tasks, left)) {
        ExitKind::Handoff => common_thread::with_word_at(switched, left, JS_FINISHED),
        _ => settled_tasks(switched, left),
    }
}

/// Whether the descriptor at `desc` went from the tasks of `a` to one place, in
/// `b` or outside: into the pool that it came from, or out to be freed.
pub open spec fn given_back_once<S: SchedulerSystem>(
    a: Scheduler<S>,
    b: Scheduler<S>,
    desc: usize,
    freed: Option<Node<S::Desc>>,
) -> bool {
    let node = a.tasks@[desc];
    &&& a.tasks@.dom().contains(desc)
    &&& b.tasks@ == a.tasks@.remove(desc)
    &&& match freed {
        Some(out) => {
            &&& out == node
            &&& b.task_pool.pooled() == a.task_pool.pooled()
            &&& b.async_task_pool.pooled() == a.async_task_pool.pooled()
        },
        None => if node.payload.is_pooled_async() {
            &&& b.task_pool.pooled() == a.task_pool.pooled()
            &&& b.async_task_pool.pooled() == a.async_task_pool.pooled().insert(node)
        } else {
            &&& b.task_pool.pooled() == a.task_pool.pooled().insert(node)
            &&& b.async_task_pool.pooled() == a.async_task_pool.pooled()
        },
    }
}

/// Joining gives what the task ended with, and the descriptor back once. A task
/// whose handle is held ends with `val` and is left in favour of `next`, whether
/// or not its joiner waits already. It is finished then, so the joiner takes the
/// result without waiting; what it takes is `val`; and the descriptor is no
/// longer among the tasks, but in its pool or out to be freed. `a` is the
/// scheduler when the joiner takes the result on worker `wk`, and `b` afterwards.
pub proof fn law_join_takes_result_and_descriptor_once<S: SchedulerSystem, T>(
    handle: JoinHandle<S, T>,
    tasks: Map<usize, Node<S::Desc>>,
    next: usize,
    val: Result<T, usize>,
    a: Scheduler<S>,
    b: Scheduler<S>,
    wk: usize,
    freed: Option<Node<S::Desc>>,
) where <S::Desc as TaskDescCore>::Owned: HasCtx
    requires
        tasks.dom().contains(handle.desc),
        next != handle.desc,
        match common_thread::join_state_at(tasks, handle.desc) {
            common_desc::JoinState::Detached => false,
            common_desc::JoinState::Finished => false,
            common_desc::JoinState::AsyncJoiner(j) => j != handle.desc,
            _ => true,
        },
        a.tasks@.dom().contains(handle.desc),
        a.tasks@[handle.desc] == exited_tasks(tasks, handle.desc, next)[handle.desc],
        a.reclaimed(b, wk, handle.desc, freed),
    ensures
        common_thread::join_state_at(a.tasks@, handle.desc) is Finished,
        kept_or_dropped(exit_kind(common_thread::join_state_at(tasks, handle.desc)), val) matches Ok(
            left,
        ) && common_thread::joined(left) == val,
        a.tasks@[handle.desc].payload.stack() == tasks[handle.desc].payload.stack(),
        a.tasks@[handle.desc].home() == tasks[handle.desc].home(),
        given_back_once(a, b, handle.desc, freed),
{
    let task = handle.desc;
    let switched = stackful_desc::with_ctx_at(tasks, next, 0);
    assert(switched[task] == tasks[task]);
    tasks[task].payload.word_is_separate(JS_FINISHED);
    assert(exited_tasks(tasks, task, next)[task] == common_thread::with_word_at(
        switched,
        task,
        JS_FINISHED,
    )[task]);
}

/// A task that exits while its joiner waits leads straight back to the joiner:
/// the exit switches to the context that the joiner was left with, and the
/// joiner finds the task finished.
pub proof fn law_exit_resumes_the_joiner<S: SchedulerSystem>(
    a: Scheduler<S>,
    task: usize,
    joiner: usize,
    prev: usize,
    next: usize,
) where <S::Desc as TaskDescCore>::Owned: HasCtx
    requires
        common_desc::is_desc_addr(joiner),
        stackful_desc::is_stackful_at(a.tasks@, joiner),
        stackful_desc::is_stackful_at(a.tasks@, next),
        a.tasks@.dom().contains(task),
        task != joiner,
        next != joiner,
    ensures
        ({
            let registered = stackful_desc::with_ctx_at(
                common_thread::with_word_at(
                    stackful_desc::with_ctx_at(a.tasks@, joiner, prev),
                    task,
                    joiner,
                ),
                next,
                0,
            );
            let exited = common_thread::with_word_at(
                stackful_desc::with_ctx_at(registered, joiner, 0),
                task,
                JS_FINISHED,
            );
            &&& common_thread::join_state_at(registered, task)
                == common_desc::JoinState::SyncJoiner(joiner)
            &&& exit_kind(common_thread::join_state_at(registered, task)) == ExitKind::Handoff
            &&& stackful_desc::ctx_at(registered, joiner) == prev
            &&& common_thread::join_state_at(exited, task) is Finished
        }),
{
    let t0 = a.tasks@;
    let t1 = stackful_desc::with_ctx_at(t0, joiner, prev);
    let t2 = common_thread::with_word_at(t1, task, joiner);
    let t3 = stackful_desc::with_ctx_at(t2, next, 0);
    stackful_desc::lemma_ctx_at(t0, joiner, prev);
    t1[task].payload.word_is_separate(joiner);
    assert(t2[next].payload.spec_owned() == t0[next].payload.spec_owned());
    stackful_desc::lemma_ctx_at(t2, next, 0);
    assert(t3[task].payload.word() == t2[task].payload.word());
    assert(t3[joiner] == t1[joiner]);
    stackful_desc::lemma_ctx_at(t3, joiner, 0);
    let t4 = stackful_desc::with_ctx_at(t3, joiner, 0);
    t4[task].payload.word_is_separate(JS_FINISHED);
}

/// A new task is ready to be started: it can be switched to, outside threads wake
/// it through its queue, nobody has joined it, and its stack is as large as the
/// system's stacks are. It has an address that nobody else has, and no other task
/// and nothing but the pool that it came from has changed.
pub proof fn law_new_task_can_be_started<S: SchedulerSystem, F: FnOnce(usize) -> StackMem>(
    a: Scheduler<S>,
    b: Scheduler<S>,
    wk: usize,
    has_handle: bool,
    make: F,
    node: Node<S::Desc>,
    desc: usize,
    queue: usize,
    other: usize,
) where <S::Desc as TaskDescCore>::Owned: HasCtx
    requires
        new_task_at(a, b, wk, has_handle, make, node, desc, queue),
    ensures
        desc != 0,
        desc % 8 == 0,
        !a.tasks@.dom().contains(desc),
        b.tasks@.dom() =~= a.tasks@.dom().insert(desc),
        a.tasks@.dom().contains(other) ==> b.tasks@[other] == a.tasks@[other],
        ({
            let new = b.tasks@[desc];
            let pool = a.task_pool;
            let needed = pool::stack_needed(pool, wk, a.stack_size);
            &&& new.payload.spec_owned().has_ctx()
            &&& new.payload.spec_owned().spec_external_queue() == queue
            &&& new.payload.word() == common_desc::initial_word(has_handle)
            &&& new.payload.stack() == node.payload.stack()
            &&& new.alloc_wk == node.alloc_wk
            &&& new.oversized == node.oversized
            &&& new.payload.root() == node.payload.root()
            &&& needed is None <==> a.stack_size <= pool.slot_size() && pool.reusable(wk) is Some
            &&& needed matches Some(n) ==> {
                &&& n >= a.stack_size
                &&& call_ensures(make, (n,), new.payload.stack())
                &&& new.alloc_wk == wk
                &&& b.task_pool.contents() == pool.contents()
            }
            &&& needed is None ==> {
                &&& new.payload.stack() == pool.reusable(wk)->0.payload.stack()
                &&& new.alloc_wk == pool.reusable(wk)->0.alloc_wk
                &&& b.task_pool.contents() == S::Pool::after_take(pool.contents(), wk)
            }
        }),
        b == (Scheduler::<S> { tasks: b.tasks, task_pool: b.task_pool, ..a }),
{
    lemma_committed(node, queue);
    pool::law_request_gets_a_stack(
        a.task_pool,
        b.task_pool,
        wk,
        has_handle,
        a.stack_size,
        make,
        node,
    );
}

/// A branch that is offered is the next to run on its worker, in front of all that
/// was queued there, and no other worker changes.
pub proof fn law_offered_branch_is_next<S: SchedulerSystem>(
    a: Seq<UltWorker<S>>,
    b: Seq<UltWorker<S>>,
    wk: int,
    c: usize,
    other: int,
)
    requires
        0 <= wk < a.len(),
        offered(a, b, wk, c),
    ensures
        b.len() == a.len(),
        b[wk].deque.wf(),
        b[wk].deque.order().len() == a[wk].deque.order().len() + 1,
        b[wk].deque.order()[0] == c,
        b[wk].deque.order().skip(1) == a[wk].deque.order(),
        b[wk] == (UltWorker::<S> { deque: b[wk].deque, ..a[wk] }),
        0 <= other < a.len() && other != wk ==> b[other] == a[other],
{
    assert(b[wk].deque.order().skip(1) =~= a[wk].deque.order());
}

/// A branch's closure, its result and the word that names what it runs lie one
/// below the other at the top of its stack, and its first frame below them, where
/// it overlaps none of them.
pub proof fn law_branch_is_laid_out_from_the_top<S: StackfulWorkerSystem, T>(
    plan: BranchPlan<S, T>,
    arch: Arch,
    stack: StackMem,
    f: Layout,
    r: Layout,
) where <S::Desc as TaskDescCore>::Owned: HasCtx
    requires
        f.wf(),
        r.wf(),
        hosts_branch::<S::Ctx>(arch, stack, f, r),
        f.size + f.align + r.size + r.align + 8 <= stack.spec_top(),
        plan_lies_at(plan, stack.spec_top(), f, r),
    ensures
        plan.dispatch_slot + 8 == stack.spec_top(),
        plan.handle.result_ptr + r.size <= plan.dispatch_slot,
        plan.dispatch_slot < plan.handle.result_ptr + r.size + r.align,
        plan.handle.result_ptr % r.align == 0,
        plan.closure + f.size <= plan.handle.result_ptr,
        plan.handle.result_ptr < plan.closure + f.size + f.align,
        plan.closure % f.align == 0,
        branch_ctx::<S::Ctx>(arch, stack.spec_top(), f, r) + WORD * S::Ctx::frame_words(arch)
            == branch_exec_top(stack.spec_top(), f, r),
        branch_exec_top(stack.spec_top(), f, r) <= plan.closure,
{
    let top = (stack.spec_top() - DISPATCH_SLOT_SIZE) as usize;
    law_branch_regions_are_apart(top, f, r);
    let ra = (top - r.size) as usize;
    stack::lemma_mask_rounds_down(ra, r.align);
    vstd::arithmetic::div_mod::lemma_mod_bound(ra as int, r.align as int);
    let fa = (result_addr(top as int, r) - f.size) as usize;
    stack::lemma_mask_rounds_down(fa, f.align);
    vstd::arithmetic::div_mod::lemma_mod_bound(fa as int, f.align as int);
    if fits_header(f, r) {
        law_header_is_above_the_stack(stack.spec_top() as usize, f, r);
    } else {
        vstd::arithmetic::div_mod::lemma_mod_bound(plan.closure as int, STACK_ALIGN as int);
    }
}

} // verus!
