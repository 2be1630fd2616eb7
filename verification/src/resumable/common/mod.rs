pub mod deque;
pub mod desc;
pub mod external_queue;
pub mod layout;
pub mod lookup;
pub mod pool;
pub mod scheduler;
pub mod stack;
pub mod sync;
pub mod system;
pub mod table;
pub mod thread;
pub mod waker;
pub mod worker;
