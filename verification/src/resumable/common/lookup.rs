//! Finding the worker that the caller runs on.
//!
//! A worker is found by its address, which each thread of a worker keeps in a
//! slot of its own; zero means that the thread is none of them.
use vstd::prelude::*;

verus! {

/// How a system finds the current worker.
pub trait CurrentLookup {
    /// What the lookup goes by.
    type Source;

    /// The address of the current worker that `source` leads to.
    spec fn found(source: Self::Source) -> Option<usize>;

    /// The address of the current worker.
    fn current(source: Self::Source) -> (r: Option<usize>)
        ensures
            r == Self::found(source),
    ;
}

/// The worker that a thread's slot names.
pub open spec fn named_by_slot(slot: usize) -> Option<usize> {
    if slot == 0 {
        None
    } else {
        Some(slot)
    }
}

/// The worker that a thread's slot names.
pub fn current_worker(slot: usize) -> (r: Option<usize>)
    ensures
        r == named_by_slot(slot),
{
    if slot == 0 {
        None
    } else {
        Some(slot)
    }
}

/// Looks the worker up in the slot of the thread.
pub struct TlsCurrent;

impl CurrentLookup for TlsCurrent {
    /// What the slot of the thread holds.
    type Source = usize;

    open spec fn found(source: usize) -> Option<usize> {
        named_by_slot(source)
    }

    fn current(source: usize) -> (r: Option<usize>) {
        current_worker(source)
    }
}

/// A thread's slot names a worker unless it is zero, and names it by its address.
pub proof fn law_slot_names_its_worker(slot: usize)
    ensures
        named_by_slot(slot) is None <==> slot == 0,
        slot != 0 ==> named_by_slot(slot) == Some(slot),
        TlsCurrent::found(slot) == named_by_slot(slot),
{
}

} // verus!
