//! The scheduler interface that the radio firmware calls: task creation
//! with sizes and priorities chosen by the requested stack, deletion by
//! slot, the current task and voluntary yield.

use vstd::prelude::*;
use crate::config::TASK_MAX;
use crate::kernel::global::Kernel;
use crate::kernel::task::{created_raw, terminated, Task};
use crate::kernel::tcb::CONTEXT_WORDS;

verus! {

/// Smallest stack, in bytes, given to a firmware task.
pub const BLOB_MIN_STACK: usize = 4096;

/// Requested stack size, in bytes, from which a firmware task counts as a
/// timer task.
pub const BLOB_TIMER_STACK: usize = 8192;

/// Priority of a firmware timer task.
pub const BLOB_TIMER_PRI: u8 = 4;

/// Priority of the other firmware tasks.
pub const BLOB_CTRL_PRI: u8 = 2;

/// Stack bytes given for a request of `task_stack_size` bytes.
pub open spec fn blob_stack_size(task_stack_size: usize) -> int {
    if task_stack_size < BLOB_MIN_STACK {
        BLOB_MIN_STACK as int
    } else {
        task_stack_size as int
    }
}

/// Priority and name of a firmware task that asked for `task_stack_size`
/// stack bytes.
pub open spec fn blob_class(task_stack_size: usize) -> (u8, &'static str) {
    if task_stack_size >= BLOB_TIMER_STACK {
        (BLOB_TIMER_PRI, "blob/tmr")
    } else {
        (BLOB_CTRL_PRI, "blob/ctrl")
    }
}

/// How a firmware task is created.
pub struct BlobTask {
    /// Stack size in bytes.
    pub stack_size: usize,
    pub priority: u8,
    pub name: &'static str,
}

/// The scheduler offered to the radio firmware.
pub struct MosScheduler;

impl MosScheduler {
    /// Stack size, priority and name for a firmware task that asks for
    /// `task_stack_size` stack bytes.
    pub fn task_params(task_stack_size: usize) -> (r: BlobTask)
        ensures
            r.stack_size == blob_stack_size(task_stack_size),
            r.priority == blob_class(task_stack_size).0,
            r.name == blob_class(task_stack_size).1,
    {
        let stack_size = if task_stack_size < BLOB_MIN_STACK {
            BLOB_MIN_STACK
        } else {
            task_stack_size
        };
        if task_stack_size >= BLOB_TIMER_STACK {
            BlobTask { stack_size, priority: BLOB_TIMER_PRI, name: "blob/tmr" }
        } else {
            BlobTask { stack_size, priority: BLOB_CTRL_PRI, name: "blob/ctrl" }
        }
    }

    /// Creates a firmware task that asked for `task_stack_size` stack bytes,
    /// on the stack `stack` of `task_params(task_stack_size).stack_size / 4`
    /// words whose first word lives at `stack_addr`; it enters at `entry`
    /// with argument `param` and returns into `exit`. Gives the slot, or
    /// `None` when every slot is taken.
    pub fn task_create(
        &self,
        k: &mut Kernel,
        entry: u32,
        param: u32,
        task_stack_size: usize,
        stack: &mut [u32],
        stack_addr: u32,
        exit: u32,
    ) -> (r: Option<usize>)
        requires
            old(k).wf(),
            old(stack)@.len() == blob_stack_size(task_stack_size) / 4,
            stack_addr + 4 * old(stack)@.len() <= u32::MAX,
        ensures
            final(k).wf(),
            created_raw(
                *old(k),
                *final(k),
                old(stack)@,
                final(stack)@,
                entry,
                param,
                blob_class(task_stack_size).0,
                blob_class(task_stack_size).1,
                exit,
                stack_addr,
                match r {
                    Some(t) => Ok(t),
                    None => Err("Task pool is full"),
                },
            ),
    {
        let p = Self::task_params(task_stack_size);
        assert(p.stack_size / 4 > CONTEXT_WORDS);
        match Task::create_raw(k, entry, param, p.priority, p.name, exit, stack, stack_addr) {
            Ok(t) => Some(t),
            Err(_) => None,
        }
    }

    /// Deletes the firmware task in slot `tid` (see [`Task::terminate`]);
    /// a slot number out of range is ignored. Returns whether it was in range.
    pub fn schedule_task_deletion(&self, k: &mut Kernel, tid: usize) -> (r: bool)
        requires
            old(k).wf(),
        ensures
            final(k).wf(),
            r == (tid < TASK_MAX),
            r ==> terminated(*old(k), *final(k), tid),
            !r ==> *final(k) == *old(k),
    {
        if tid < TASK_MAX {
            Task::terminate(k, tid);
            true
        } else {
            false
        }
    }

    /// The running task's slot, if the scheduler runs one.
    pub fn current_task(&self, k: &Kernel) -> (r: Option<usize>)
        ensures
            r == k.current,
    {
        k.current
    }

    /// Gives up the processor: requests a context switch when a task is
    /// running, and does nothing before that.
    pub fn yield_task(&self, k: &mut Kernel)
        ensures
            old(k).current is None ==> *final(k) == *old(k),
            old(k).current is Some ==> *final(k) == (Kernel { yield_pending: true, ..*old(k) }),
    {
        if k.current.is_some() {
            k.yield_pending = true;
        }
    }
}

} // verus!
