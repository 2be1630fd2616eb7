//! Finding the current worker from the stack pointer.
use vstd::prelude::*;

use crate::resumable::common::lookup;
use crate::resumable::common::lookup::{CurrentLookup, TlsCurrent};

verus! {

/// What an arena keeps at each of its cells: the system that the cell's stack
/// belongs to, and the worker that its task runs on.
#[derive(Clone, Copy, PartialEq, Eq, Structural, Debug)]
pub struct CellSlot {
    pub system_id: usize,
    pub worker: usize,
}

/// What a lookup from the stack pointer goes by.
pub struct SpSource {
    /// The slot of the cell that the stack pointer lies in, where it lies in
    /// one.
    pub cell: Option<CellSlot>,
    /// The system that asks.
    pub system_id: usize,
    /// What the slot of the thread holds.
    pub tls: usize,
}

/// Derives the worker from the stack pointer. A cell that belongs to another
/// system, as the innermost of nested ones, is not answered for.
pub struct SpCurrent;

impl CurrentLookup for SpCurrent {
    type Source = SpSource;

    open spec fn found(source: SpSource) -> Option<usize> {
        match source.cell {
            Some(cell) => if cell.system_id == source.system_id {
                Some(cell.worker)
            } else {
                lookup::named_by_slot(source.tls)
            },
            None => lookup::named_by_slot(source.tls),
        }
    }

    fn current(source: SpSource) -> (r: Option<usize>) {
        if let Some(cell) = source.cell {
            if cell.system_id == source.system_id {
                return Some(cell.worker);
            }
        }
        TlsCurrent::current(source.tls)
    }
}

/// The cell that the stack pointer lies in answers for its own system, and for no
/// other: there, and outside of all cells, the slot of the thread does.
pub proof fn law_cell_answers_for_its_system(cell: CellSlot, system_id: usize, tls: usize)
    ensures
        SpCurrent::found(SpSource { cell: Some(cell), system_id: cell.system_id, tls }) == Some(
            cell.worker,
        ),
        cell.system_id != system_id ==> SpCurrent::found(
            SpSource { cell: Some(cell), system_id, tls },
        ) == SpCurrent::found(SpSource { cell: None, system_id, tls }),
        tls != 0 ==> SpCurrent::found(SpSource { cell: None, system_id, tls }) == Some(tls),
        SpCurrent::found(SpSource { cell: None, system_id, tls: 0 }) is None,
{
}

} // verus!
