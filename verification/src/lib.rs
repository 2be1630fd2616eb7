//! User-level threads: tasks with stacks of their own and tasks that are
//! polled, on workers that steal from each other.
//!
//! This library decides; the program around it acts. Whatever is kept in
//! shared memory is a plain value here, and each operation on it is one
//! function from the old value to the new one. A context switch is made between
//! two such functions: the first says where to, the second, on the other stack,
//! settles what was left.
pub mod bench;
pub mod context;
pub mod fork_join;
pub mod future;
pub mod interchange;
pub mod os;
pub mod resumable;

use vstd::prelude::*;

use crate::context::NativeContext;
use crate::resumable::common::deque::{HybridRunQueue, HybridStealer};
use crate::resumable::common::desc::SuspendedTaskToken;
use crate::resumable::common::external_queue::StealPathQueue;
use crate::resumable::common::pool::{BlockPool, ReturnPool, ThresholdPool};
use crate::resumable::common::stack::HeapStack;
use crate::resumable::common::system::{PoolSystem, WorkerSystem};
use crate::resumable::common::table::TaskTable;
use crate::resumable::common::worker::UltWorker;
use crate::resumable::dual::desc::DualTaskDesc;
use crate::resumable::dual::worker::pop_or_root_dual;
use crate::resumable::stackful::init;
use crate::resumable::stackful::system::{StackfulWorkerSystem, UltIdentity};
use crate::resumable::stackless::desc::StacklessOnlyTaskDesc;

verus! {

/// The stack size of the default systems.
pub const DEFAULT_STACK_SIZE: usize = 65536;

/// The slot size of the pools of polled tasks of the default systems.
pub const DEFAULT_ASYNC_POOL_SIZE: usize = 512;

/// The default system: both kinds of tasks, on threads of the operating
/// system.
pub struct DefaultDualTaskSystem;

impl PoolSystem for DefaultDualTaskSystem {
    type Desc = DualTaskDesc;

    type Pool = ReturnPool<DualTaskDesc, 16>;

    type AsyncPool = ReturnPool<DualTaskDesc, 16>;

    type RecursionPool = ThresholdPool<BlockPool<16>>;

    type ExternalQueue = StealPathQueue;

    open spec fn spec_async_pool_size() -> usize {
        DEFAULT_ASYNC_POOL_SIZE
    }

    fn async_pool_size() -> (r: usize) {
        DEFAULT_ASYNC_POOL_SIZE
    }
}

impl WorkerSystem for DefaultDualTaskSystem {
    type RunQueue = HybridRunQueue<SuspendedTaskToken>;

    type Stealer = HybridStealer;
}

impl StackfulWorkerSystem for DefaultDualTaskSystem {
    type Ctx = NativeContext;

    type StackAlloc = HeapStack;

    open spec fn spec_stack_size() -> usize {
        DEFAULT_STACK_SIZE
    }

    fn stack_size() -> (r: usize) {
        DEFAULT_STACK_SIZE
    }

    fn pop_or_root(wk: &mut UltWorker<Self>, tasks: &TaskTable<DualTaskDesc>) -> (r:
        SuspendedTaskToken) {
        pop_or_root_dual(wk, tasks)
    }
}

/// A second level: both kinds of tasks, on the tasks of
/// [`DefaultDualTaskSystem`].
pub struct DefaultNestedDualTaskSystem;

impl PoolSystem for DefaultNestedDualTaskSystem {
    type Desc = DualTaskDesc;

    type Pool = ReturnPool<DualTaskDesc, 16>;

    type AsyncPool = ReturnPool<DualTaskDesc, 16>;

    type RecursionPool = ThresholdPool<BlockPool<16>>;

    type ExternalQueue = StealPathQueue;

    open spec fn spec_async_pool_size() -> usize {
        DEFAULT_ASYNC_POOL_SIZE
    }

    fn async_pool_size() -> (r: usize) {
        DEFAULT_ASYNC_POOL_SIZE
    }
}

impl WorkerSystem for DefaultNestedDualTaskSystem {
    type RunQueue = HybridRunQueue<SuspendedTaskToken>;

    type Stealer = HybridStealer;
}

impl StackfulWorkerSystem for DefaultNestedDualTaskSystem {
    type Ctx = NativeContext;

    type StackAlloc = HeapStack;

    open spec fn spec_stack_size() -> usize {
        DEFAULT_STACK_SIZE
    }

    fn stack_size() -> (r: usize) {
        DEFAULT_STACK_SIZE
    }

    fn pop_or_root(wk: &mut UltWorker<Self>, tasks: &TaskTable<DualTaskDesc>) -> (r:
        SuspendedTaskToken) {
        pop_or_root_dual(wk, tasks)
    }
}

/// The default system of tasks with stacks of their own only.
pub struct DefaultStackfulOnlyTaskSystem;

impl UltIdentity for DefaultStackfulOnlyTaskSystem {
    type Ctx = NativeContext;

    type Alloc = HeapStack;

    type Queue = HybridRunQueue<SuspendedTaskToken>;

    type QueueStealer = HybridStealer;

    open spec fn identity_stack_size() -> usize {
        DEFAULT_STACK_SIZE
    }

    fn ult_stack_size() -> (r: usize) {
        DEFAULT_STACK_SIZE
    }
}

/// The default system of polled tasks only.
pub struct DefaultStacklessOnlyMarker;

impl PoolSystem for DefaultStacklessOnlyMarker {
    type Desc = StacklessOnlyTaskDesc;

    type Pool = ReturnPool<StacklessOnlyTaskDesc, 16>;

    type AsyncPool = ReturnPool<StacklessOnlyTaskDesc, 16>;

    type RecursionPool = ThresholdPool<BlockPool<16>>;

    type ExternalQueue = StealPathQueue;

    open spec fn spec_async_pool_size() -> usize {
        DEFAULT_ASYNC_POOL_SIZE
    }

    fn async_pool_size() -> (r: usize) {
        DEFAULT_ASYNC_POOL_SIZE
    }
}

impl WorkerSystem for DefaultStacklessOnlyMarker {
    type RunQueue = HybridRunQueue<SuspendedTaskToken>;

    type Stealer = HybridStealer;
}

/// The parts of the default systems fit together: each of these systems can be
/// set up.
pub proof fn law_default_systems_can_be_set_up()
    ensures
        init::valid_system::<DefaultDualTaskSystem>(),
        init::valid_system::<DefaultNestedDualTaskSystem>(),
        init::valid_system::<DefaultStackfulOnlyTaskSystem>(),
{
    vstd::arithmetic::power2::lemma2_to64();
    assert(crate::resumable::common::stack::is_pow2_of(16, 4));
}

/// What the default systems are set up with: stacks of 64 KiB, and small frames of
/// polled tasks out of a pool.
pub proof fn law_default_sizes()
    ensures
        DefaultDualTaskSystem::spec_stack_size() == 64 * 1024,
        DefaultNestedDualTaskSystem::spec_stack_size() == 64 * 1024,
        DefaultStackfulOnlyTaskSystem::identity_stack_size() == 64 * 1024,
        DefaultDualTaskSystem::spec_async_pool_size() == 512,
        DefaultNestedDualTaskSystem::spec_async_pool_size() == 512,
        DefaultStacklessOnlyMarker::spec_async_pool_size() == 512,
{
}

} // verus!
