pub mod laws;
pub mod queue;
pub mod ring;
pub mod spin_lock;

pub use queue::SPSCQueue;
pub use ring::{advance_read, advance_write, next_index};
pub use spin_lock::SpinLock;
