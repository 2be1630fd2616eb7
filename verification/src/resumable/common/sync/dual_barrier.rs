//! The barrier of systems with both kinds of tasks. It differs from the other
//! barrier only in the slots that its waiters park in.
use vstd::prelude::*;

use crate::resumable::stackful::suspended::StackfulOnlyResumableCore;
use crate::resumable::stackful::sync::barrier::{BarrierCore, BarrierState};

verus! {

/// A barrier for `n` tasks whose slots are of type `N`.
pub struct DualBarrier<N> {
    n: usize,
    state: BarrierState<N>,
}

impl<N: StackfulOnlyResumableCore> DualBarrier<N> {
    /// A barrier for `n` tasks.
    pub fn new(n: usize) -> (r: Self)
        requires
            n > 0,
        ensures
            r.parties() == n,
            r.round().wf(n),
            r.round().arrived() == 0,
            r.round().waiting() == Seq::<usize>::empty(),
    {
        DualBarrier { n, state: BarrierState::new() }
    }
}

impl<N: StackfulOnlyResumableCore> BarrierCore<N> for DualBarrier<N> {
    closed spec fn parties(&self) -> usize {
        self.n
    }

    closed spec fn round(&self) -> BarrierState<N> {
        self.state
    }

    fn new_core(count: usize) -> (r: Self) {
        DualBarrier::new(count)
    }

    fn n(&self) -> (r: usize) {
        self.n
    }

    fn state(&mut self) -> (r: &mut BarrierState<N>) {
        &mut self.state
    }
}

} // verus!
