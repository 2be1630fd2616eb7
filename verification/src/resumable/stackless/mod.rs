pub mod desc;
pub mod worker;
