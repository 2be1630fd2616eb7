pub mod common;
pub mod dual;
pub mod stackful;
pub mod stackless;
