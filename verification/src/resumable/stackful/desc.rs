//! Descriptors of tasks with a stack of their own: the saved context, and
//! [`StackfulOnlyTaskDesc`].
//!
//! A saved context is the address of a frame on the task's stack; null means
//! that the task runs, or that somebody is about to switch to it.
use vstd::prelude::*;

use crate::interchange::PointerInterchangeable;
use crate::resumable::common::desc::{
    DescOwned, HasDescOwned, HasExternalQueue, JoinState, RunningTaskToken, SuspendedTaskToken,
    TaskDescAlloc, TaskDescCore, decode_join_state, JS_DETACHED, JS_RUNNING,
};
use crate::resumable::common::pool::Node;
use crate::resumable::common::stack::StackMem;
use crate::resumable::common::table::TaskTable;

verus! {

/// Owner fields that can hold a saved context.
pub trait HasCtx: HasExternalQueue {
    /// Whether the fields are in use for a saved context.
    spec fn has_ctx(&self) -> bool;

    /// The saved context.
    spec fn spec_ctx(&self) -> usize;

    /// The fields with the saved context replaced.
    spec fn with_ctx(self, ptr: usize) -> Self;

    /// The fields taken into use for a saved context.
    spec fn committed_as_ctx(self) -> Self;

    /// Replacing the saved context is seen by the next look at it.
    proof fn ctx_is_kept(self, ptr: usize)
        requires
            self.has_ctx(),
        ensures
            self.with_ctx(ptr).has_ctx(),
            self.with_ctx(ptr).spec_ctx() == ptr,
            self.with_ctx(self.spec_ctx()) == self,
            forall|other: usize| #[trigger]
                self.with_ctx(ptr).with_ctx(other) == self.with_ctx(other),
    ;

    /// Taking the fields into use makes them hold a context.
    proof fn commit_gives_ctx(self)
        ensures
            self.committed_as_ctx().has_ctx(),
    ;

    /// The saved context is kept apart from the queue of outside wakes.
    proof fn queue_is_separate(self, queue: usize)
        ensures
            self.with_external_queue(queue).has_ctx() == self.has_ctx(),
            self.with_external_queue(queue).spec_ctx() == self.spec_ctx(),
            self.with_external_queue(queue).spec_external_queue() == queue,
            forall|ptr: usize| (#[trigger] self.with_ctx(ptr)).spec_external_queue()
                == self.spec_external_queue(),
            self.committed_as_ctx().spec_external_queue() == self.spec_external_queue(),
    ;

    fn ctx(&self) -> (r: usize)
        requires
            self.has_ctx(),
        ensures
            r == self.spec_ctx(),
    ;

    fn set_ctx(&mut self, ptr: usize)
        requires
            old(self).has_ctx(),
        ensures
            *final(self) == old(self).with_ctx(ptr),
    ;

    fn commit_as_ctx(&mut self)
        ensures
            *final(self) == old(self).committed_as_ctx(),
    ;
}

/// A descriptor whose task has a stack of its own.
pub trait StackfulTaskDesc: TaskDescCore where Self::Owned: HasCtx {

}

impl<D: TaskDescCore> StackfulTaskDesc for D where D::Owned: HasCtx {

}

/// Whether the task at `p` is live and can hold a saved context.
pub open spec fn is_stackful_at<D: TaskDescCore>(
    tasks: Map<usize, Node<D>>,
    p: usize,
) -> bool where D::Owned: HasCtx {
    tasks.dom().contains(p) && tasks[p].payload.spec_owned().has_ctx()
}

/// The saved context of the task at `p`.
pub open spec fn ctx_at<D: TaskDescCore>(tasks: Map<usize, Node<D>>, p: usize) -> usize where
    D::Owned: HasCtx,
 {
    tasks[p].payload.spec_owned().spec_ctx()
}

/// The tasks with the saved context of the task at `p` replaced.
pub open spec fn with_ctx_at<D: TaskDescCore>(
    tasks: Map<usize, Node<D>>,
    p: usize,
    ctx: usize,
) -> Map<usize, Node<D>> where D::Owned: HasCtx {
    tasks.insert(
        p,
        Node {
            payload: tasks[p].payload.with_owned(tasks[p].payload.spec_owned().with_ctx(ctx)),
            ..tasks[p]
        },
    )
}

/// What replacing one task's saved context does: that context, and nothing
/// else.
pub proof fn lemma_ctx_at<D: TaskDescCore>(
    tasks: Map<usize, Node<D>>,
    p: usize,
    ctx: usize,
) where D::Owned: HasCtx
    requires
        is_stackful_at(tasks, p),
    ensures
        is_stackful_at(with_ctx_at(tasks, p, ctx), p),
        ctx_at(with_ctx_at(tasks, p, ctx), p) == ctx,
        with_ctx_at(tasks, p, ctx).dom() == tasks.dom(),
        forall|q: usize|
            q != p && tasks.dom().contains(q) ==> #[trigger] with_ctx_at(tasks, p, ctx)[q]
                == tasks[q],
        with_ctx_at(tasks, p, ctx)[p].payload.word() == tasks[p].payload.word(),
        with_ctx_at(tasks, p, ctx)[p].payload.root() == tasks[p].payload.root(),
        with_ctx_at(tasks, p, ctx)[p].payload.stack() == tasks[p].payload.stack(),
{
    let owned = tasks[p].payload.spec_owned();
    owned.ctx_is_kept(ctx);
    tasks[p].payload.owned_is_separate(owned.with_ctx(ctx));
    assert(with_ctx_at(tasks, p, ctx).dom() =~= tasks.dom());
}

/// Putting a saved context back undoes whatever replaced it.
pub proof fn lemma_ctx_restored<D: TaskDescCore>(
    tasks: Map<usize, Node<D>>,
    p: usize,
    ctx: usize,
) where D::Owned: HasCtx
    requires
        is_stackful_at(tasks, p),
    ensures
        with_ctx_at(with_ctx_at(tasks, p, ctx), p, ctx_at(tasks, p)) == tasks,
{
    let owned = tasks[p].payload.spec_owned();
    let back = ctx_at(tasks, p);
    owned.ctx_is_kept(ctx);
    tasks[p].payload.owned_is_separate(owned.with_ctx(ctx));
    assert(owned.with_ctx(ctx).with_ctx(back) == owned.with_ctx(back));
    assert(with_ctx_at(with_ctx_at(tasks, p, ctx), p, back)[p] == tasks[p]);
    assert(with_ctx_at(with_ctx_at(tasks, p, ctx), p, back) =~= tasks);
}

fn read_ctx<D: TaskDescCore>(tasks: &TaskTable<D>, p: usize) -> (r: usize) where D::Owned: HasCtx
    requires
        is_stackful_at(tasks@, p),
    ensures
        r == ctx_at(tasks@, p),
{
    tasks.get(p).payload.owned().ctx()
}

fn write_ctx<D: TaskDescCore>(tasks: &mut TaskTable<D>, p: usize, ctx: usize) where D::Owned: HasCtx
    requires
        old(tasks).wf(),
        is_stackful_at(old(tasks)@, p),
    ensures
        final(tasks).wf(),
        final(tasks).has_room() == old(tasks).has_room(),
        final(tasks)@ == with_ctx_at(old(tasks)@, p, ctx),
{
    let node = tasks.get_mut(p);
    node.payload.owned_mut().set_ctx(ctx);
}

impl SuspendedTaskToken {
    /// Whether the task stands for a worker's own loop.
    pub fn is_root<D: TaskDescCore>(&self, tasks: &TaskTable<D>) -> (r: bool)
        requires
            tasks@.dom().contains(self.ptr()),
        ensures
            r == tasks@[self.ptr()].payload.root(),
    {
        tasks.get(self.desc()).payload.is_root()
    }

    /// Takes the saved context in order to switch to it.
    pub fn claim_saved_context<D: TaskDescCore>(&self, tasks: &mut TaskTable<D>) -> (r: usize) where
        D::Owned: HasCtx,

        requires
            old(tasks).wf(),
            is_stackful_at(old(tasks)@, self.ptr()),
        ensures
            r == ctx_at(old(tasks)@, self.ptr()),
            final(tasks).wf(),
            final(tasks).has_room() == old(tasks).has_room(),
            final(tasks)@ == with_ctx_at(old(tasks)@, self.ptr(), 0),
    {
        let ptr: usize = read_ctx(tasks, self.desc());
        write_ctx(tasks, self.desc(), 0);
        ptr
    }

    /// Looks at the saved context without taking it.
    pub fn peek_saved_context<D: TaskDescCore>(&self, tasks: &TaskTable<D>) -> (r: usize) where
        D::Owned: HasCtx,

        requires
            is_stackful_at(tasks@, self.ptr()),
        ensures
            r == ctx_at(tasks@, self.ptr()),
    {
        read_ctx(tasks, self.desc())
    }

    /// Gives a new task the context that it starts with.
    pub fn init_saved_context<D: TaskDescCore>(&self, tasks: &mut TaskTable<D>, ptr: usize) where
        D::Owned: HasCtx,

        requires
            old(tasks).wf(),
            is_stackful_at(old(tasks)@, self.ptr()),
        ensures
            final(tasks).wf(),
            final(tasks).has_room() == old(tasks).has_room(),
            final(tasks)@ == with_ctx_at(old(tasks)@, self.ptr(), ptr),
    {
        write_ctx(tasks, self.desc(), ptr);
    }
}

impl RunningTaskToken {
    /// Publishes the context that was just saved, and returns what was there:
    /// null, unless the task was already suspended.
    pub fn publish_saved_context<D: TaskDescCore>(
        &self,
        tasks: &mut TaskTable<D>,
        ptr: usize,
    ) -> (r: usize) where D::Owned: HasCtx
        requires
            old(tasks).wf(),
            is_stackful_at(old(tasks)@, self.ptr()),
        ensures
            r == ctx_at(old(tasks)@, self.ptr()),
            final(tasks).wf(),
            final(tasks).has_room() == old(tasks).has_room(),
            final(tasks)@ == with_ctx_at(old(tasks)@, self.ptr(), ptr),
    {
        let old_ctx: usize = read_ctx(tasks, self.desc());
        write_ctx(tasks, self.desc(), ptr);
        old_ctx
    }

    /// Forgets the saved context of a task that runs.
    pub fn clear_saved_context<D: TaskDescCore>(&self, tasks: &mut TaskTable<D>) where
        D::Owned: HasCtx,

        requires
            old(tasks).wf(),
            is_stackful_at(old(tasks)@, self.ptr()),
        ensures
            final(tasks).wf(),
            final(tasks).has_room() == old(tasks).has_room(),
            final(tasks)@ == with_ctx_at(old(tasks)@, self.ptr(), 0),
    {
        write_ctx(tasks, self.desc(), 0);
    }
}

// ---------------------------------------------------------------------------
// StackfulOnlyTaskDesc
// ---------------------------------------------------------------------------

/// The owner fields of a [`StackfulOnlyTaskDesc`].
pub struct StackfulOnlyOwned {
    pub desc_owned: DescOwned,
    pub external_queue: usize,
    pub ctx: usize,
}

impl HasDescOwned for StackfulOnlyOwned {
    open spec fn spec_desc_owned(&self) -> DescOwned {
        self.desc_owned
    }

    open spec fn with_desc_owned(self, d: DescOwned) -> Self {
        StackfulOnlyOwned { desc_owned: d, ..self }
    }

    fn desc_owned(&self) -> (r: &DescOwned) {
        &self.desc_owned
    }

    fn desc_owned_mut(&mut self) -> (r: &mut DescOwned) {
        &mut self.desc_owned
    }
}

impl HasExternalQueue for StackfulOnlyOwned {
    open spec fn spec_external_queue(&self) -> usize {
        self.external_queue
    }

    open spec fn with_external_queue(self, queue: usize) -> Self {
        StackfulOnlyOwned { external_queue: queue, ..self }
    }

    fn external_queue(&self) -> (r: usize) {
        self.external_queue
    }

    fn set_external_queue(&mut self, queue: usize) {
        self.external_queue = queue;
    }
}

impl HasCtx for StackfulOnlyOwned {
    open spec fn has_ctx(&self) -> bool {
        true
    }

    open spec fn spec_ctx(&self) -> usize {
        self.ctx
    }

    open spec fn with_ctx(self, ptr: usize) -> Self {
        StackfulOnlyOwned { ctx: ptr, ..self }
    }

    /// There is nothing else that the fields could be in use for.
    open spec fn committed_as_ctx(self) -> Self {
        self
    }

    proof fn ctx_is_kept(self, ptr: usize) {
    }

    proof fn commit_gives_ctx(self) {
    }

    proof fn queue_is_separate(self, queue: usize) {
    }

    fn ctx(&self) -> (r: usize) {
        self.ctx
    }

    fn set_ctx(&mut self, ptr: usize) {
        self.ctx = ptr;
    }

    fn commit_as_ctx(&mut self) {
    }
}

/// The descriptor of a system whose tasks all have stacks of their own.
pub struct StackfulOnlyTaskDesc {
    pub owned: StackfulOnlyOwned,
    pub join_state: usize,
    pub is_root: bool,
    pub stack: StackMem,
}

impl StackfulOnlyTaskDesc {
    /// Decodes a join word of such a system, where nothing asynchronous can
    /// have registered.
    pub fn decode_join(word: usize) -> (s: JoinState)
        requires
            !(crate::resumable::common::desc::join_state_of(word) is AsyncWaker),
            !(crate::resumable::common::desc::join_state_of(word) is AsyncJoiner),
        ensures
            s == crate::resumable::common::desc::join_state_of(word),
            s is Running || s is Finished || s is Detached || s is SyncJoiner,
    {
        decode_join_state(word)
    }
}

impl TaskDescCore for StackfulOnlyTaskDesc {
    type Owned = StackfulOnlyOwned;

    open spec fn word(&self) -> usize {
        self.join_state
    }

    open spec fn with_word(self, w: usize) -> Self {
        StackfulOnlyTaskDesc { join_state: w, ..self }
    }

    open spec fn root(&self) -> bool {
        self.is_root
    }

    open spec fn stack(&self) -> StackMem {
        self.stack
    }

    open spec fn spec_owned(&self) -> StackfulOnlyOwned {
        self.owned
    }

    open spec fn with_owned(self, o: StackfulOnlyOwned) -> Self {
        StackfulOnlyTaskDesc { owned: o, ..self }
    }

    proof fn word_is_separate(self, w: usize) {
    }

    proof fn owned_is_separate(self, o: StackfulOnlyOwned) {
    }

    fn join_state(&self) -> (w: usize) {
        self.join_state
    }

    fn set_join_state(&mut self, w: usize) {
        self.join_state = w;
    }

    fn is_root(&self) -> (r: bool) {
        self.is_root
    }

    fn stack_top(&self) -> (r: usize) {
        self.stack.top()
    }

    fn owned(&self) -> (r: &StackfulOnlyOwned) {
        &self.owned
    }

    fn owned_mut(&mut self) -> (r: &mut StackfulOnlyOwned) {
        &mut self.owned
    }

    open spec fn claims_async_joiner(&self) -> bool {
        false
    }

    open spec fn after_claim(self) -> Self {
        self
    }

    fn try_claim_async_joiner(&mut self) -> (claimed: bool) {
        false
    }
}

impl TaskDescAlloc for StackfulOnlyTaskDesc {
    open spec fn fresh(stack: StackMem, has_handle: bool) -> Self {
        StackfulOnlyTaskDesc {
            owned: StackfulOnlyOwned {
                desc_owned: DescOwned { tls: None },
                external_queue: 0,
                ctx: 0,
            },
            join_state: crate::resumable::common::desc::initial_word(has_handle),
            is_root: false,
            stack,
        }
    }

    open spec fn fresh_root() -> Self {
        StackfulOnlyTaskDesc { is_root: true, ..Self::fresh(StackMem::NoStack, false) }
    }

    open spec fn recycled(self, has_handle: bool) -> Self {
        StackfulOnlyTaskDesc {
            owned: StackfulOnlyOwned { desc_owned: DescOwned { tls: None }, ctx: 0, ..self.owned },
            join_state: crate::resumable::common::desc::initial_word(has_handle),
            ..self
        }
    }

    proof fn lifecycle(self, stack: StackMem, has_handle: bool) {
    }

    fn alloc_with(stack: StackMem, has_handle: bool) -> (r: Self) {
        StackfulOnlyTaskDesc {
            owned: StackfulOnlyOwned { desc_owned: DescOwned::new(), external_queue: 0, ctx: 0 },
            join_state: if has_handle {
                JS_RUNNING
            } else {
                JS_DETACHED
            },
            is_root: false,
            stack,
        }
    }

    fn new_root() -> (r: Self) {
        StackfulOnlyTaskDesc {
            owned: StackfulOnlyOwned { desc_owned: DescOwned::new(), external_queue: 0, ctx: 0 },
            join_state: JS_DETACHED,
            is_root: true,
            stack: StackMem::NoStack,
        }
    }

    fn reinit(&mut self, has_handle: bool) {
        self.owned.ctx = 0;
        self.owned.desc_owned.tls = None;
        self.join_state =
        if has_handle {
            JS_RUNNING
        } else {
            JS_DETACHED
        };
    }
}

/// The fields of an owner are kept apart: replacing one is seen by the next look
/// at it, and leaves the others. A task of this kind is never claimed as one that
/// polls.
pub proof fn law_stackful_fields_are_kept_apart(
    o: StackfulOnlyOwned,
    d: StackfulOnlyTaskDesc,
    tls: DescOwned,
    queue: usize,
    ctx: usize,
)
    ensures
        o.with_desc_owned(tls).spec_desc_owned() == tls,
        o.with_desc_owned(tls).spec_external_queue() == o.spec_external_queue(),
        o.with_desc_owned(tls).spec_ctx() == o.spec_ctx(),
        o.with_external_queue(queue).spec_external_queue() == queue,
        o.with_external_queue(queue).spec_desc_owned() == o.spec_desc_owned(),
        o.with_ctx(ctx).spec_ctx() == ctx,
        o.with_ctx(ctx).spec_desc_owned() == o.spec_desc_owned(),
        o.committed_as_ctx() == o,
        o.has_ctx(),
        !d.claims_async_joiner(),
        d.after_claim() == d,
{
}

} // verus!
