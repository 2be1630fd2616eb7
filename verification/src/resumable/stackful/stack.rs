//! Stacks carved out of one reserved region.
use vstd::prelude::*;

use crate::resumable::common::desc::TaskDescCore;
use crate::resumable::common::lookup::CurrentLookup;
use crate::resumable::common::scheduler::Scheduler;
use crate::resumable::common::stack;
use crate::resumable::common::stack::{round_up, HeapStackMem};
use crate::resumable::common::system::SchedulerSystem;
use crate::resumable::common::worker::DescWorkerOps;
use crate::resumable::stackful::lookup::{CellSlot, SpCurrent, SpSource};

verus! {

/// What each cell keeps at its top for lookups.
pub const CELL_SLOT_SIZE: usize = 16;

/// A region that is divided into cells of one size. A cell begins with a guard
/// page and ends with its lookup slot; the stack lies between them.
pub struct ArenaStack {
    pub base: usize,
    pub stride: usize,
    pub cells: usize,
    pub page: usize,
    /// The lookup slots of the cells.
    pub slots: Vec<CellSlot>,
}

/// What the slot of a cell holds that no task has run on.
pub open spec fn unused_slot() -> CellSlot {
    CellSlot { system_id: 0, worker: 0 }
}

/// Whether two arenas are divided in the same way.
pub open spec fn same_cells(a: ArenaStack, b: ArenaStack) -> bool {
    &&& a.base == b.base
    &&& a.stride == b.stride
    &&& a.cells == b.cells
    &&& a.page == b.page
}

/// Whether `b` is `a` after the slot of the cell that `addr` lies in, if it
/// lies in one, was written.
pub open spec fn slot_written(a: ArenaStack, b: ArenaStack, addr: int, slot: CellSlot) -> bool {
    &&& same_cells(a, b)
    &&& b.slots@.len() == a.slots@.len()
    &&& forall|cell: int|
        0 <= cell < a.slots@.len() ==> #[trigger] b.slots@[cell] == (if a.contains(cell, addr) {
            slot
        } else {
            a.slots@[cell]
        })
}

impl ArenaStack {
    /// The region lies inside the address space, and a cell has room for its
    /// guard page and its slot.
    pub open spec fn wf(&self) -> bool {
        &&& self.base + self.cells * self.stride <= usize::MAX
        &&& self.page + CELL_SLOT_SIZE <= self.stride
        &&& self.stride > 0
        &&& self.slots@.len() == self.cells
    }

    /// Whether an address lies in a cell.
    pub open spec fn contains(&self, cell: int, addr: int) -> bool {
        &&& 0 <= cell < self.cells
        &&& self.base + cell * self.stride <= addr < self.base + (cell + 1) * self.stride
    }

    /// The cell size that a request for `size` bytes fixes.
    pub open spec fn stride_for(size: usize, page: usize) -> int {
        stack::rounded_up(size + page + CELL_SLOT_SIZE, page as int)
    }

    /// An arena in the region of `len` bytes at `base`, with cells for stacks
    /// of at least `size` bytes.
    pub fn new(base: usize, len: usize, size: usize, page: usize) -> (r: Self)
        requires
            stack::is_pow2(page),
            base + len <= usize::MAX,
            size + 2 * page + CELL_SLOT_SIZE <= usize::MAX,
        ensures
            r.wf(),
            r.base == base,
            r.page == page,
            r.stride == Self::stride_for(size, page),
            r.cells == len as int / r.stride as int,
            r.stride - page - CELL_SLOT_SIZE >= size,
            forall|cell: int| 0 <= cell < r.cells ==> #[trigger] r.slots@[cell] == unused_slot(),
            forall|cell: int|
                0 <= cell < r.cells ==> (#[trigger] r.slots@[cell]).worker == 0
                    && r.slots@[cell].system_id == 0,
    {
        proof {
            stack::lemma_mask_rounds_down(0, page);
            vstd::arithmetic::div_mod::lemma_mod_bound(
                size + page + CELL_SLOT_SIZE + page - 1,
                page as int,
            );
        }
        let stride: usize = round_up(size + page + CELL_SLOT_SIZE, page);
        let cells: usize = len / stride;
        proof {
            vstd::arithmetic::div_mod::lemma_fundamental_div_mod(len as int, stride as int);
            vstd::arithmetic::div_mod::lemma_mod_bound(len as int, stride as int);
            assert(cells * stride == stride * cells) by (nonlinear_arith);
        }
        let mut slots: Vec<CellSlot> = Vec::new();
        for i in 0..cells
            invariant
                slots@.len() == i,
                forall|cell: int| 0 <= cell < i ==> #[trigger] slots@[cell] == unused_slot(),
        {
            slots.push(CellSlot { system_id: 0, worker: 0 });
        }
        ArenaStack { base, stride, cells, page, slots }
    }

    /// The stack of a cell.
    pub fn cell_stack(&self, cell: usize) -> (r: HeapStackMem)
        requires
            self.wf(),
            cell < self.cells,
        ensures
            r.ptr == self.base + cell * self.stride + self.page,
            r.size == self.stride - self.page - CELL_SLOT_SIZE,
            r.ptr + r.size + CELL_SLOT_SIZE == self.base + (cell + 1) * self.stride,
    {
        proof {
            lemma_cell_bounds(*self, cell as int);
        }
        let start: usize = self.base + cell * self.stride;
        HeapStackMem {
            ptr: start + self.page,
            size: self.stride - self.page - CELL_SLOT_SIZE,
        }
    }

    /// The slot of the cell that a stack pointer lies in; `None` outside of the
    /// arena.
    pub fn slot_from_sp(&self, sp: usize) -> (r: Option<CellSlot>)
        requires
            self.wf(),
        ensures
            match r {
                Some(slot) => exists|cell: int| #[trigger]
                    self.contains(cell, sp as int) && slot == self.slots@[cell],
                None => forall|cell: int| !self.contains(cell, sp as int),
            },
    {
        match self.cell_from_sp(sp) {
            Some(cell) => {
                assert(self.contains(cell as int, sp as int));
                Some(self.slots[cell])
            },
            None => None,
        }
    }

    /// Records, when a task has begun to run on worker `wk`, in the slot of the
    /// cell that its stack lies in, where it lies in one, the system that it
    /// belongs to and the address of the worker.
    pub fn mark_running<S: SchedulerSystem>(
        &mut self,
        sched: &Scheduler<S>,
        wk: usize,
        system_id: usize,
        worker: usize,
    )
        requires
            old(self).wf(),
            wk < sched.workers@.len(),
            sched.tasks.wf(),
            sched.workers@[wk as int].running() is Some,
            sched.tasks@.dom().contains(sched.workers@[wk as int].running()->0),
            runs_on_stack(*sched, wk as int),
            worker != 0,
        ensures
            final(self).wf(),
            slot_written(
                *old(self),
                *final(self),
                running_stack_top(*sched, wk as int) - 1,
                CellSlot { system_id, worker },
            ),
    {
        let task: usize = sched.workers[wk].cur_task();
        let last: usize = sched.tasks.get(task).payload.stack_top() - 1;
        match self.cell_from_sp(last) {
            Some(cell) => {
                assert forall|other: int| self.contains(other, last as int) implies other == cell by {
                    lemma_one_cell(*self, cell as int, other, last as int);
                }
                self.slots[cell] = CellSlot { system_id, worker };
            },
            None => {},
        }
    }

    /// The cell that a stack pointer lies in; `None` outside of the arena.
    pub fn cell_from_sp(&self, sp: usize) -> (r: Option<usize>)
        requires
            self.wf(),
        ensures
            match r {
                Some(cell) => self.contains(cell as int, sp as int),
                None => forall|cell: int| !self.contains(cell, sp as int),
            },
            r matches Some(cell) ==> cell < self.cells && self.base + cell * self.stride <= sp
                < self.base + cell * self.stride + self.stride,
            r is None ==> sp < self.base || sp >= self.base + self.cells * self.stride,
    {
        if sp < self.base {
            proof {
                lemma_below(*self, sp as int);
            }
            return None;
        }
        let offset: usize = sp - self.base;
        let cell: usize = offset / self.stride;
        proof {
            vstd::arithmetic::div_mod::lemma_fundamental_div_mod(
                offset as int,
                self.stride as int,
            );
            vstd::arithmetic::div_mod::lemma_mod_bound(offset as int, self.stride as int);
            assert(cell * self.stride <= offset < (cell + 1) * self.stride) by (nonlinear_arith)
                requires
                    offset as int == self.stride * cell + offset as int % self.stride as int,
                    0 <= offset as int % self.stride as int,
                    (offset as int % self.stride as int) < self.stride,
            ;
            assert((cell + 1) * self.stride == cell * self.stride + self.stride)
                by (nonlinear_arith);
        }
        if cell < self.cells {
            Some(cell)
        } else {
            proof {
                lemma_above(*self, sp as int, cell as int);
                assert(self.cells * self.stride <= cell * self.stride) by (nonlinear_arith)
                    requires
                        self.cells <= cell,
                        self.stride > 0,
                ;
            }
            None
        }
    }
}

proof fn lemma_cell_bounds(a: ArenaStack, cell: int)
    requires
        a.wf(),
        0 <= cell < a.cells,
    ensures
        0 <= cell * a.stride,
        (cell + 1) * a.stride == cell * a.stride + a.stride,
        (cell + 1) * a.stride <= a.cells * a.stride,
{
    assert(0 <= cell * a.stride && (cell + 1) * a.stride == cell * a.stride + a.stride && (cell + 1)
        * a.stride <= a.cells * a.stride) by (nonlinear_arith)
        requires
            0 <= cell < a.cells,
            a.stride > 0,
    ;
}

proof fn lemma_below(a: ArenaStack, addr: int)
    requires
        a.wf(),
        addr < a.base,
    ensures
        forall|cell: int| !a.contains(cell, addr),
{
    assert forall|cell: int| !a.contains(cell, addr) by {
        if 0 <= cell < a.cells {
            lemma_cell_bounds(a, cell);
        }
    }
}

proof fn lemma_above(a: ArenaStack, addr: int, past: int)
    requires
        a.wf(),
        a.cells <= past,
        a.base + past * a.stride <= addr,
    ensures
        forall|cell: int| !a.contains(cell, addr),
{
    assert forall|cell: int| !a.contains(cell, addr) by {
        if 0 <= cell < a.cells {
            assert((cell + 1) * a.stride <= past * a.stride) by (nonlinear_arith)
                requires
                    cell + 1 <= past,
                    a.stride > 0,
            ;
        }
    }
}

/// The top of the stack of the task that runs on worker `wk`.
pub open spec fn running_stack_top<S: SchedulerSystem>(sched: Scheduler<S>, wk: int) -> int {
    sched.tasks@[sched.workers@[wk].running()->0].payload.stack().spec_top()
}

/// Whether the task that runs on worker `wk` has a stack of its own.
pub open spec fn runs_on_stack<S: SchedulerSystem>(sched: Scheduler<S>, wk: int) -> bool {
    &&& sched.tasks@[sched.workers@[wk].running()->0].payload.stack().fits()
    &&& running_stack_top(sched, wk) > 0
}

/// An address lies in at most one cell.
proof fn lemma_one_cell(a: ArenaStack, i: int, j: int, addr: int)
    requires
        a.wf(),
        a.contains(i, addr),
        a.contains(j, addr),
    ensures
        i == j,
{
    if i < j {
        assert((i + 1) * a.stride <= j * a.stride) by (nonlinear_arith)
            requires
                i + 1 <= j,
                a.stride > 0,
        ;
    } else if j < i {
        assert((j + 1) * a.stride <= i * a.stride) by (nonlinear_arith)
            requires
                j + 1 <= i,
                a.stride > 0,
        ;
    }
}

/// The lookup from a stack pointer hits exactly the cell that the stack was
/// carved from.
pub proof fn law_sp_lookup_hits(a: ArenaStack, cell: usize, found: int, sp: int)
    requires
        a.wf(),
        cell < a.cells,
        a.base + cell * a.stride + a.page <= sp < a.base + (cell + 1) * a.stride - CELL_SLOT_SIZE,
        a.contains(found, sp),
    ensures
        found == cell,
{
    lemma_cell_bounds(a, cell as int);
    lemma_one_cell(a, cell as int, found, sp);
}

/// A task that runs is found from its stack pointer: once it was recorded where
/// it runs, the slot of the cell that any address of its stack lies in names its
/// system and its worker, and the lookup on behalf of that system finds the
/// worker, whatever the slot of the thread holds.
pub proof fn law_running_task_is_found(
    a: ArenaStack,
    b: ArenaStack,
    cell: usize,
    slot: CellSlot,
    found: int,
    sp: int,
    tls: usize,
)
    requires
        a.wf(),
        cell < a.cells,
        slot_written(a, b, a.base + (cell + 1) * a.stride - CELL_SLOT_SIZE - 1, slot),
        a.base + cell * a.stride + a.page <= sp < a.base + (cell + 1) * a.stride - CELL_SLOT_SIZE,
        b.contains(found, sp),
    ensures
        b.slots@[found] == slot,
        SpCurrent::found(
            SpSource { cell: Some(b.slots@[found]), system_id: slot.system_id, tls },
        ) == Some(slot.worker),
{
    law_sp_lookup_hits(a, cell, found, sp);
    lemma_cell_bounds(a, cell as int);
    assert(a.contains(cell as int, a.base + (cell + 1) * a.stride - CELL_SLOT_SIZE - 1));
}

/// An arena's cells lie side by side without gaps: every address of the region
/// lies in exactly one of them, and no other address in any. A cell is no larger
/// than its stack, its guard page and its slot, rounded up to whole pages.
pub proof fn law_cells_tile_the_region(a: ArenaStack, addr: int, i: int, j: int)
    requires
        a.wf(),
    ensures
        a.contains(i, addr) && a.contains(j, addr) ==> i == j,
        a.contains(i, addr) ==> a.base <= addr < a.base + a.cells * a.stride,
        a.base <= addr < a.base + a.cells * a.stride ==> a.contains(
            (addr - a.base) / a.stride as int,
            addr,
        ),
        0 <= i < a.cells ==> a.contains(i, a.base + i * a.stride) && a.contains(
            i,
            a.base + i * a.stride + a.stride - 1,
        ),
{
    if a.contains(i, addr) {
        lemma_cell_bounds(a, i);
        if a.contains(j, addr) {
            lemma_one_cell(a, i, j, addr);
        }
    }
    if 0 <= i < a.cells {
        lemma_cell_bounds(a, i);
    }
    if a.base <= addr < a.base + a.cells * a.stride {
        let off = addr - a.base;
        let m = a.stride as int;
        vstd::arithmetic::div_mod::lemma_fundamental_div_mod(off, m);
        vstd::arithmetic::div_mod::lemma_mod_bound(off, m);
        let q = off / m;
        assert(0 <= q && q < a.cells && q * m <= off && off < (q + 1) * m) by (nonlinear_arith)
            requires
                off == m * q + off % m,
                0 <= off % m < m,
                0 <= off < a.cells * m,
                m > 0,
        ;
    }
}

/// The size that a request fixes for the cells leaves no page unused.
pub proof fn law_cells_waste_less_than_a_page(size: usize, page: usize)
    requires
        stack::is_pow2(page),
    ensures
        size + page + 16 <= ArenaStack::stride_for(size, page) < size + page + 16 + page,
        ArenaStack::stride_for(size, page) % page as int == 0,
{
    stack::lemma_mask_rounds_down(0, page);
    stack::law_rounding_up_is_least(size + page + CELL_SLOT_SIZE, page as int, 0);
}

/// Recording where a task runs writes the slot of its own cell, and no other, and
/// leaves the cells where they are.
pub proof fn law_recording_writes_one_slot(
    a: ArenaStack,
    b: ArenaStack,
    addr: int,
    slot: CellSlot,
    cell: int,
)
    requires
        a.wf(),
        slot_written(a, b, addr, slot),
        0 <= cell < a.cells,
    ensures
        b == (ArenaStack { slots: b.slots, ..a }),
        b.slots@.len() == a.slots@.len(),
        a.base + cell * a.stride <= addr < a.base + cell * a.stride + a.stride ==> b.slots@[cell]
            == slot,
        addr < a.base + cell * a.stride || addr >= a.base + cell * a.stride + a.stride
            ==> b.slots@[cell] == a.slots@[cell],
{
    lemma_cell_bounds(a, cell);
}

/// A task is recorded at the last byte of its own stack.
pub proof fn law_task_is_recorded_by_its_stack<S: SchedulerSystem>(
    sched: Scheduler<S>,
    wk: int,
    task: usize,
)
    requires
        sched.workers@[wk].running() == Some(task),
    ensures
        running_stack_top(sched, wk) == sched.tasks@[task].payload.stack().spec_top(),
        runs_on_stack(sched, wk) ==> sched.tasks@[task].payload.stack().spec_top() > 0,
{
}

} // verus!
