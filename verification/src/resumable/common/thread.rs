//! Handles of tasks, and what becomes of their results.
use core::marker::PhantomData;
use vstd::prelude::*;

use crate::resumable::common::desc;
use crate::resumable::common::desc::{TaskDesc, TaskDescCore, JS_DETACHED};
use crate::resumable::common::pool::Node;
use crate::resumable::common::scheduler::Scheduler;
use crate::resumable::common::stack;
use crate::resumable::common::system::SchedulerSystem;

verus! {

/// What a task left behind: its value, or the payload of the panic that ended
/// it, by the address of its box.
pub enum StackResult<T> {
    Value(T),
    Panicked(usize),
}

/// The greatest multiple of `to` that is not above `v`.
pub open spec fn rounded_down(v: int, to: int) -> int {
    v - v % to
}

/// Rounds an address down to a multiple of the power of two `align`.
pub fn align_down(addr: usize, align: usize) -> (r: usize)
    requires
        stack::is_pow2(align),
    ensures
        r == rounded_down(addr as int, align as int),
        r as int % align as int == 0,
        r <= addr < r + align,
{
    proof {
        stack::lemma_mask_rounds_down(addr, align);
        vstd::arithmetic::div_mod::lemma_mod_bound(addr as int, align as int);
    }
    addr & !(align - 1)
}

/// What a task left behind, as its joiner sees it.
pub open spec fn joined<T>(r: StackResult<T>) -> Result<T, usize> {
    match r {
        StackResult::Value(v) => Ok(v),
        StackResult::Panicked(e) => Err(e),
    }
}

fn into_joined<T>(sr: StackResult<T>) -> (r: Result<T, usize>)
    ensures
        r == joined(sr),
{
    match sr {
        StackResult::Value(v) => Ok(v),
        StackResult::Panicked(e) => Err(e),
    }
}

/// The tasks with the join word of the one at `p` replaced.
pub open spec fn with_word_at<D: TaskDescCore>(
    tasks: Map<usize, Node<D>>,
    p: usize,
    word: usize,
) -> Map<usize, Node<D>> {
    tasks.insert(p, Node { payload: tasks[p].payload.with_word(word), ..tasks[p] })
}

/// The join state of the task at `p`.
pub open spec fn join_state_at<D: TaskDescCore>(
    tasks: Map<usize, Node<D>>,
    p: usize,
) -> desc::JoinState {
    desc::join_state_of(tasks[p].payload.word())
}

/// A joiner sees a value as a value and a panic as a panic.
pub proof fn law_joined_tells_values_from_panics<T>(v: T, e: usize)
    ensures
        joined(StackResult::Value(v)) == Ok::<T, usize>(v),
        joined(StackResult::<T>::Panicked(e)) == Err::<T, usize>(e),
{
}

/// Replacing the join word of one task is seen by whoever looks at that task
/// next, and by nobody who looks at another one.
pub proof fn law_join_word_is_one_tasks_own<D: TaskDescCore>(
    tasks: Map<usize, Node<D>>,
    p: usize,
    word: usize,
    q: usize,
)
    requires
        tasks.dom().contains(p),
    ensures
        with_word_at(tasks, p, word).dom() == tasks.dom(),
        with_word_at(tasks, p, word)[p].payload.word() == word,
        with_word_at(tasks, p, word)[p].payload.stack() == tasks[p].payload.stack(),
        with_word_at(tasks, p, word)[p].payload.root() == tasks[p].payload.root(),
        with_word_at(tasks, p, word)[p].payload.spec_owned() == tasks[p].payload.spec_owned(),
        with_word_at(tasks, p, word)[p].alloc_wk == tasks[p].alloc_wk,
        with_word_at(tasks, p, word)[p].oversized == tasks[p].oversized,
        q != p ==> with_word_at(tasks, p, word)[q] == tasks[q],
        join_state_at(tasks, p) == desc::join_state_of(tasks[p].payload.word()),
{
    tasks[p].payload.word_is_separate(word);
    assert(with_word_at(tasks, p, word).dom() =~= tasks.dom());
}

/// What becomes of a handle that is dropped.
pub enum HandleDrop<D> {
    /// The result was taken before: nothing.
    Consumed,
    /// The task still runs and cleans up after itself. A waker that was
    /// registered is to be dropped.
    Detached(Option<usize>),
    /// The task had finished: its result is to be dropped. A descriptor that
    /// did not enter a pool is to be freed.
    DropResult(Option<Node<D>>),
}

/// The right to a task's result: the addresses of its descriptor and of the
/// place that the result is written to. A null descriptor means that the
/// result was taken.
pub struct JoinHandle<S: SchedulerSystem, T> {
    pub desc: usize,
    pub result_ptr: usize,
    pub marker: PhantomData<(S, T)>,
}

impl<S: SchedulerSystem, T> JoinHandle<S, T> {
    /// A handle of the task at `desc`.
    pub fn new(desc: usize, result_ptr: usize) -> (r: Self)
        ensures
            r.desc == desc,
            r.result_ptr == result_ptr,
    {
        JoinHandle { desc, result_ptr, marker: PhantomData }
    }

    /// Takes the result `sr` of a finished task on worker `wk`. The descriptor
    /// goes back to its pool, or is handed out to be freed.
    pub fn take_result(self, sched: &mut Scheduler<S>, wk: usize, sr: StackResult<T>) -> (r: (
        Result<T, usize>,
        Option<Node<S::Desc>>,
    ))
        requires
            old(sched).pools_wf(),
            wk < old(sched).workers@.len(),
            old(sched).tasks@.dom().contains(self.desc),
            !old(sched).tasks@[self.desc].payload.root(),
            join_state_at(old(sched).tasks@, self.desc) is Finished,
        ensures
            r.0 == joined(sr),
            old(sched).reclaimed(*final(sched), wk, self.desc, r.1),
    {
        let freed = sched.reclaim(wk, self.desc);
        (into_joined(sr), freed)
    }

    /// Takes the result `sr` of a finished task where there is no worker. The
    /// descriptor does not enter a pool.
    pub fn take_result_no_worker(self, sched: &mut Scheduler<S>, sr: StackResult<T>) -> (r: (
        Result<T, usize>,
        S::Desc,
    ))
        requires
            old(sched).tasks.wf(),
            old(sched).tasks@.dom().contains(self.desc),
            join_state_at(old(sched).tasks@, self.desc) is Finished,
        ensures
            r.0 == joined(sr),
            r.1 == old(sched).tasks@[self.desc].payload,
            final(sched).tasks.wf(),
            final(sched).tasks@ == old(sched).tasks@.remove(self.desc),
            *final(sched) == (Scheduler::<S> { tasks: final(sched).tasks, ..*old(sched) }),
    {
        let node = sched.tasks.remove(self.desc);
        (into_joined(sr), node.free_desc())
    }

    /// Gives the handle up; `current` is the worker that the caller runs on.
    /// Whichever of the handle and the task comes last cleans up.
    pub fn drop_handle(self, sched: &mut Scheduler<S>, current: Option<usize>) -> (r: HandleDrop<
        S::Desc,
    >)
        requires
            self.desc != 0 ==> {
                &&& old(sched).pools_wf()
                &&& old(sched).tasks@.dom().contains(self.desc)
                &&& !old(sched).tasks@[self.desc].payload.root()
                &&& current matches Some(wk) ==> wk < old(sched).workers@.len()
            },
        ensures
            match r {
                HandleDrop::Consumed => self.desc == 0 && *final(sched) == *old(sched),
                HandleDrop::Detached(waker) => {
                    &&& self.desc != 0
                    &&& !(join_state_at(old(sched).tasks@, self.desc) is Finished)
                    &&& waker == desc::held_waker(old(sched).tasks@[self.desc].payload.word())
                    &&& final(sched).tasks@ == with_word_at(
                        old(sched).tasks@,
                        self.desc,
                        JS_DETACHED,
                    )
                    &&& final(sched).tasks.wf()
                    &&& *final(sched) == (Scheduler::<S> {
                        tasks: final(sched).tasks,
                        ..*old(sched)
                    })
                },
                HandleDrop::DropResult(freed) => {
                    &&& self.desc != 0
                    &&& join_state_at(old(sched).tasks@, self.desc) is Finished
                    &&& match current {
                        Some(wk) => old(sched).reclaimed(*final(sched), wk, self.desc, freed),
                        None => {
                            &&& freed == Some(old(sched).tasks@[self.desc])
                            &&& final(sched).tasks.wf()
                            &&& final(sched).tasks@ == old(sched).tasks@.remove(self.desc)
                            &&& *final(sched) == (Scheduler::<S> {
                                tasks: final(sched).tasks,
                                ..*old(sched)
                            })
                        },
                    }
                },
            },
    {
        if self.desc == 0 {
            return HandleDrop::Consumed;
        }
        if sched.tasks.get(self.desc).payload.is_finished() {
            return HandleDrop::DropResult(
                match current {
                    Some(wk) => sched.reclaim(wk, self.desc),
                    None => Some(sched.tasks.remove(self.desc)),
                },
            );
        }
        let node = sched.tasks.get_mut(self.desc);
        let (_, waker) = node.payload.try_abandon();
        HandleDrop::Detached(waker)
    }
}

} // verus!
