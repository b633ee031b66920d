//! The kernel-side context of a task: what the context switch saves and
//! restores — return address, stack pointer and the callee-saved registers.

use vstd::prelude::*;

verus! {

/// Where a fresh task's kernel context returns to: the trap-exit path. The
/// value stands for the address of that routine in the kernel image.
pub const TRAP_RETURN_PC: usize = 0xFFFF_E000;

#[derive(Clone, Copy, Debug)]
pub struct TaskContext {
    pub ra: usize,
    pub sp: usize,
    pub s: [usize; 12],
}

impl TaskContext {
    /// An all-zero context, the state of the idle slot before first use.
    pub fn zero_init() -> (r: TaskContext)
        ensures
            r.ra == 0,
            r.sp == 0,
            forall|i: int| 0 <= i < 12 ==> r.s@[i] == 0,
    {
        TaskContext { ra: 0, sp: 0, s: [0; 12] }
    }

    /// The context a new task is first switched into: it returns into the
    /// trap-exit path on its own kernel stack.
    pub fn goto_trap_return(kstack_ptr: usize) -> (r: TaskContext)
        ensures
            r.ra == TRAP_RETURN_PC,
            r.sp == kstack_ptr,
            forall|i: int| 0 <= i < 12 ==> r.s@[i] == 0,
    {
        TaskContext { ra: TRAP_RETURN_PC, sp: kstack_ptr, s: [0; 12] }
    }
}

} // verus!
