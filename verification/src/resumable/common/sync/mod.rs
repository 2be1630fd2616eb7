pub mod dual_barrier;
