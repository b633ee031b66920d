//! The trap context: the register block saved at the fixed trap-context page
//! on every user trap and restored on the way back.

use vstd::prelude::*;

verus! {

/// Fixed layout: 32 general-purpose registers, user `sstatus` and `sepc`,
/// then the three kernel values the trampoline needs to enter the handler.
#[derive(Clone, Copy, Debug)]
pub struct TrapContext {
    pub x: [usize; 32],
    pub sstatus: usize,
    pub sepc: usize,
    pub kernel_satp: u64,
    pub kernel_sp: usize,
    pub trap_handler: usize,
}

/// The `sstatus` image for a fresh user context: previous privilege is user.
pub const SSTATUS_USER: usize = 0;

impl TrapContext {
    /// Store the user stack pointer in `x2`.
    pub fn set_sp(&mut self, sp: usize)
        ensures
            final(self).x@ == old(self).x@.update(2, sp),
            final(self).sstatus == old(self).sstatus,
            final(self).sepc == old(self).sepc,
            final(self).kernel_satp == old(self).kernel_satp,
            final(self).kernel_sp == old(self).kernel_sp,
            final(self).trap_handler == old(self).trap_handler,
    {
        self.x[2] = sp;
    }

    /// The context a freshly loaded app starts from: entry point in `sepc`,
    /// user stack in `x2`, every other register clear, and the kernel's
    /// re-entry values.
    pub fn app_init_context(
        entry: usize,
        sp: usize,
        kernel_satp: u64,
        kernel_sp: usize,
        trap_handler: usize,
    ) -> (r: TrapContext)
        ensures
            r.sepc == entry,
            r.x@[2] == sp,
            forall|i: int| 0 <= i < 32 && i != 2 ==> r.x@[i] == 0,
            r.sstatus == SSTATUS_USER,
            r.kernel_satp == kernel_satp,
            r.kernel_sp == kernel_sp,
            r.trap_handler == trap_handler,
    {
        let mut cx = TrapContext {
            x: [0; 32],
            sstatus: SSTATUS_USER,
            sepc: entry,
            kernel_satp,
            kernel_sp,
            trap_handler,
        };
        cx.set_sp(sp);
        cx
    }
}

} // verus!
