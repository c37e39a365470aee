//! Task control blocks and the initial RISC-V context frame of a task stack.

use vstd::prelude::*;
use crate::config::{PRI_INV, PRI_MIN, TIME_SLICE};

verus! {

/// Size of a saved context frame in words: 30 general registers plus
/// `mepc` and `mstatus`.
pub const CONTEXT_WORDS: usize = 32;

/// Size of a saved context frame in bytes.
pub const FRAME_SIZE: usize = CONTEXT_WORDS * 4;

/// `mstatus` value of a fresh context (MPP = machine mode, MPIE set).
pub const INITIAL_MSTATUS: u32 = 0x0000_1888;

/// Frame slot of `mepc` (the entry point).
pub const FRAME_MEPC: usize = 0;

/// Frame slot of `ra` (where the task returns when it finishes).
pub const FRAME_RA: usize = 1;

/// Frame slot of `a0` (the task argument).
pub const FRAME_A0: usize = 9;

/// Frame slot of `mstatus`.
pub const FRAME_MSTATUS: usize = 31;

/// Run state of a task.
#[derive(Copy, Clone, PartialEq, Eq, Debug, Structural)]
pub enum TaskStatus {
    Terminated,
    Ready,
    Running,
    Blocked,
}

impl TaskStatus {
    /// The label shown for the status ("Dead" for a terminated task).
    pub fn as_str(&self) -> (r: &'static str)
        ensures
            r@ == status_label(*self)@,
    {
        match self {
            TaskStatus::Ready => "Ready",
            TaskStatus::Running => "Running",
            TaskStatus::Blocked => "Blocked",
            TaskStatus::Terminated => "Dead",
        }
    }
}

/// The label of each status.
pub open spec fn status_label(s: TaskStatus) -> &'static str {
    match s {
        TaskStatus::Ready => "Ready",
        TaskStatus::Running => "Running",
        TaskStatus::Blocked => "Blocked",
        TaskStatus::Terminated => "Dead",
    }
}

/// Task control block.
#[derive(Copy, Clone)]
pub struct Tcb {
    /// Saved stack pointer.
    pub sp: u32,
    pub tid: usize,
    pub status: TaskStatus,
    pub priority: u8,
    /// Priority saved while an inherited one is in effect (`PRI_INV` if none).
    pub sub_priority: u8,
    pub time_slice: u32,
    /// Tick at which a sleeping task wakes (0 when not sleeping).
    pub wake_point: u32,
    /// Tick at which the task last went to sleep; with `wake_point` it gives
    /// the length of the delay.
    pub sleep_start: u32,
    pub name: &'static str,
    pub stack_bottom: u32,
    /// Base of a heap-allocated stack (0 when the static stack pool is used).
    pub heap_stack_base: u32,
}

/// The control block of an unused slot `tid`.
pub open spec fn empty_tcb(tid: usize) -> Tcb {
    Tcb {
        sp: 0,
        tid,
        status: TaskStatus::Terminated,
        priority: PRI_MIN,
        sub_priority: PRI_INV,
        time_slice: TIME_SLICE,
        wake_point: 0,
        sleep_start: 0,
        name: "",
        stack_bottom: 0,
        heap_stack_base: 0,
    }
}

impl Tcb {
    /// A terminated control block for slot `tid`, with the lowest priority,
    /// no saved priority and a full time slice.
    pub fn empty(tid: usize) -> (r: Self)
        ensures
            r == empty_tcb(tid),
    {
        Tcb {
            sp: 0,
            tid,
            status: TaskStatus::Terminated,
            priority: PRI_MIN,
            sub_priority: PRI_INV,
            time_slice: TIME_SLICE,
            wake_point: 0,
        sleep_start: 0,
            name: "",
            stack_bottom: 0,
            heap_stack_base: 0,
        }
    }

    /// Whether the task is blocked with a pending wake-up time.
    pub fn is_sleeping(&self) -> (r: bool)
        ensures
            r == (self.wake_point != 0 && self.status == TaskStatus::Blocked),
    {
        self.wake_point != 0 && self.status == TaskStatus::Blocked
    }
}

/// The stack after a fresh context frame is written at its top: the frame's
/// words are zero except entry point, return address, argument and `mstatus`.
pub open spec fn framed_stack(old_stack: Seq<u32>, entry: u32, argv: u32, exit: u32) -> Seq<u32> {
    let base = old_stack.len() - CONTEXT_WORDS;
    Seq::new(
        old_stack.len(),
        |i: int|
            if i < base {
                old_stack[i]
            } else if i == base + FRAME_MEPC {
                entry
            } else if i == base + FRAME_RA {
                exit
            } else if i == base + FRAME_A0 {
                argv
            } else if i == base + FRAME_MSTATUS {
                INITIAL_MSTATUS
            } else {
                0u32
            },
    )
}

/// Writes the initial context frame at the top of `stack`, whose first word
/// lives at address `stack_addr`, and returns the frame's address (the task's
/// initial stack pointer).
pub fn init_stack_frame_raw(
    stack: &mut [u32],
    stack_addr: u32,
    entry_addr: u32,
    argv: u32,
    exit_addr: u32,
) -> (sp: u32)
    requires
        old(stack)@.len() > CONTEXT_WORDS,
        stack_addr + 4 * old(stack)@.len() <= u32::MAX,
    ensures
        final(stack)@ == framed_stack(old(stack)@, entry_addr, argv, exit_addr),
        sp == stack_addr + 4 * (old(stack)@.len() - CONTEXT_WORDS),
{
    let stack_len = stack.len();
    let frame_base = stack_len - CONTEXT_WORDS;
    let mut i: usize = 0;
    while i < CONTEXT_WORDS
        invariant
            stack_len == stack@.len() == old(stack)@.len(),
            frame_base == stack_len - CONTEXT_WORDS,
            i <= CONTEXT_WORDS,
            forall|j: int| 0 <= j < frame_base ==> stack@[j] == old(stack)@[j],
            forall|j: int| frame_base <= j < frame_base + i ==> stack@[j] == 0u32,
        decreases CONTEXT_WORDS - i,
    {
        stack[frame_base + i] = 0;
        i = i + 1;
    }
    stack[frame_base + FRAME_MEPC] = entry_addr;
    stack[frame_base + FRAME_RA] = exit_addr;
    stack[frame_base + FRAME_A0] = argv;
    stack[frame_base + FRAME_MSTATUS] = INITIAL_MSTATUS;
    assert(stack@ =~= framed_stack(old(stack)@, entry_addr, argv, exit_addr));
    stack_addr + (frame_base as u32) * 4
}

/// Writes the initial context frame of a task whose entry point, argument
/// and exit stub are given as addresses; see [`init_stack_frame_raw`].
pub fn init_stack_frame(
    stack: &mut [u32],
    stack_addr: u32,
    entry: u32,
    argv: u32,
    exit_fn: u32,
) -> (sp: u32)
    requires
        old(stack)@.len() > CONTEXT_WORDS,
        stack_addr + 4 * old(stack)@.len() <= u32::MAX,
    ensures
        final(stack)@ == framed_stack(old(stack)@, entry, argv, exit_fn),
        sp == stack_addr + 4 * (old(stack)@.len() - CONTEXT_WORDS),
{
    init_stack_frame_raw(stack, stack_addr, entry, argv, exit_fn)
}

} // verus!
