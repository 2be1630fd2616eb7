//! Helpers for futures that no executor needs to know of.
use vstd::prelude::*;

verus! {

/// What a poll of [`YieldNow`] answers.
#[derive(Clone, Copy, PartialEq, Eq, Structural, Debug)]
pub enum YieldPoll {
    /// Pending; the waker is to be called at once.
    WakeAndPend,
    /// Ready.
    Ready,
}

/// Yields once to the executor.
pub struct YieldNow {
    yielded: bool,
}

impl YieldNow {
    /// Whether it has yielded.
    pub closed spec fn has_yielded(&self) -> bool {
        self.yielded
    }

    /// It has not yielded.
    pub fn yield_now() -> (r: Self)
        ensures
            !r.has_yielded(),
    {
        YieldNow { yielded: false }
    }

    /// Pending on the first poll, and ready on the next.
    pub fn poll(&mut self) -> (r: YieldPoll)
        ensures
            r == (if old(self).has_yielded() {
                YieldPoll::Ready
            } else {
                YieldPoll::WakeAndPend
            }),
            final(self).has_yielded(),
    {
        if self.yielded {
            YieldPoll::Ready
        } else {
            self.yielded = true;
            YieldPoll::WakeAndPend
        }
    }
}

} // verus!
