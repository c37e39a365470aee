//! Kernel-wide configuration constants.
#![allow(dead_code)]

use vstd::prelude::*;

verus! {

/// The target has no hardware floating-point unit.
pub const USE_HARD_FPU: bool = false;

/// System tick frequency (1000 = one tick per millisecond).
pub const SYSTICK_HZ: u32 = 1000;

/// Maximum number of tasks.
pub const TASK_MAX: usize = 16;

/// Default page / stack size in bytes.
pub const PAGE_SIZE: usize = 1024;

/// Stack size in 32-bit words.
pub const PAGE_SIZE_WORDS: usize = PAGE_SIZE / 4;

/// Length of a time slice in ticks.
pub const TIME_SLICE: u32 = 50;

/// Inline storage for a task closure, in bytes.
pub const TASK_CLOSURE_SIZE: usize = 32;

/// Highest priority (smaller numbers are more urgent).
pub const PRI_MAX: u8 = 0;

/// Lowest priority.
pub const PRI_MIN: u8 = 127;

/// Marker for "no priority saved".
pub const PRI_INV: u8 = 255;

/// Shell line buffer size.
pub const SHELL_BUF_SIZE: usize = 32;

/// Number of user shell command slots.
pub const SHELL_USR_CMD_SIZE: usize = 8;

/// Size of the user name buffer.
pub const USER_NAME_SIZE: usize = 8;

/// Bytes captured by an async closure.
pub const ASYNC_TASK_SIZE: usize = 32;

/// Maximum number of concurrent coroutines.
pub const ASYNC_POOL_MAX: usize = 16;

/// Coroutine frame size in bytes.
pub const ASYNC_FRAME_SIZE: usize = 64;

} // verus!
