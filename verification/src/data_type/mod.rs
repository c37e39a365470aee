//! Fixed-capacity data types: bitmap, linear buffer and ring queue.

pub mod bitmap;
pub mod buffer;
pub mod queue;
