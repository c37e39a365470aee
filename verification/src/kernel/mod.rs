//! The kernel: task control blocks, task lists, scheduler state,
//! synchronisation primitives, message queues and the async timer queue.

pub mod list;
pub mod tcb;
pub mod global;
pub mod sched;
pub mod task;
pub mod sync;
pub mod ipc;
pub mod async_rt;
