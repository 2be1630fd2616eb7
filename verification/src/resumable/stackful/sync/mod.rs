pub mod barrier;
pub mod delegator;
pub mod mcs_mutex;
pub mod mutex;
pub mod ring_delegator;
