//! Core of a minimal preemptive multitasking kernel for 64-bit RISC-V
//! (privileged SV39), modelled as verified state machines over plain data.
//!
//! The hardware edge (SBI firmware calls, the assembly trampoline, CSR
//! accesses, the virtio block driver) is outside this library; everything the
//! kernel core decides or computes is here, with contracts.

pub mod address;
pub mod config;
pub mod frame_allocator;
pub mod memory_set;
pub mod page_table;
pub mod fs;
pub mod kernel;
pub mod layout;
pub mod loader;
pub mod pid;
pub mod task;
pub mod pipe;
pub mod signal;
pub mod task_context;
pub mod trap_context;

use vstd::prelude::*;

verus! {

/// One page holds this many bytes; the whole memory model is built on it.
pub open spec fn spec_page_size() -> nat {
    4096
}

} // verus!
