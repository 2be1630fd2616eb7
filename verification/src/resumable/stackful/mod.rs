pub mod context;
pub mod desc;
pub mod init;
pub mod lookup;
pub mod scheduler;
pub mod stack;
pub mod suspended;
pub mod sync;
pub mod system;
pub mod thread;
pub mod tls;
pub mod waker;
pub mod worker;
