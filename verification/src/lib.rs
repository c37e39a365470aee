//! MOS: a small preemptive RTOS kernel for RISC-V microcontrollers, with its
//! scheduler, synchronisation primitives, message queues, fixed-size data
//! types and board-side terminal logic modelled as verified state machines.
#![allow(unused_imports)]

use vstd::prelude::*;

pub mod config;
pub mod data_type;
pub mod kernel;
pub mod board;

verus! {

} // verus!
