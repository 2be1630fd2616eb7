pub mod desc;
pub mod dual_wait;
pub mod worker;
