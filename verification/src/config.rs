//! Global layout constants of the kernel: page geometry, the fixed
//! high-address trampoline and trap-context pages, and the per-PID kernel
//! stack window.

use vstd::prelude::*;

verus! {

pub const PAGE_SIZE: usize = 0x1000;
pub const PAGE_SIZE_BITS: usize = 12;
pub const USER_STACK_SIZE: usize = 4096 * 2;
pub const KERNEL_STACK_SIZE: usize = 4096 * 2;
pub const KERNEL_HEAP_SIZE: usize = 0x30_0000;
pub const CLOCK_FREQ: usize = 12500000;
pub const MEMORY_END: usize = 0x8800_0000;

/// The trampoline text page sits on the highest virtual page.
pub const TRAMPOLINE: usize = usize::MAX - PAGE_SIZE + 1;
/// The trap context page sits one page below the trampoline.
pub const TRAP_CONTEXT: usize = TRAMPOLINE - PAGE_SIZE;

/// Bounds and in-page entry counts of the SV39 translation scheme.
pub const PTE_PER_PAGE: usize = 512;
/// Virtual page numbers have 27 significant bits.
pub const VPN_BITS: usize = 27;
/// Physical page numbers have 44 significant bits.
pub const PPN_BITS: usize = 44;

/// Return `(bottom, top)` of the kernel stack of the app with `app_id`.
///
/// The stack of PID `p` occupies
/// `[TRAMPOLINE - (p+1)(KERNEL_STACK_SIZE + PAGE_SIZE),
///   TRAMPOLINE - p(KERNEL_STACK_SIZE + PAGE_SIZE) - PAGE_SIZE)`:
/// every stack, the first included, has a one-page guard above it.
pub fn kernel_stack_position(app_id: usize) -> (r: (usize, usize))
    requires
        app_id * (KERNEL_STACK_SIZE + PAGE_SIZE) + KERNEL_STACK_SIZE + PAGE_SIZE <= TRAMPOLINE,
    ensures
        r.1 == TRAMPOLINE - app_id * (KERNEL_STACK_SIZE + PAGE_SIZE) - PAGE_SIZE,
        r.0 == r.1 - KERNEL_STACK_SIZE,
        r.0 == TRAMPOLINE - (app_id + 1) * (KERNEL_STACK_SIZE + PAGE_SIZE),
        r.0 < r.1,
{
    let top: usize = TRAMPOLINE - app_id * (KERNEL_STACK_SIZE + PAGE_SIZE) - PAGE_SIZE;
    let bottom: usize = top - KERNEL_STACK_SIZE;
    proof {
        assert(bottom == TRAMPOLINE - (app_id + 1) * (KERNEL_STACK_SIZE + PAGE_SIZE)) by (
        nonlinear_arith)
            requires
                bottom == TRAMPOLINE - app_id * (KERNEL_STACK_SIZE + PAGE_SIZE) - PAGE_SIZE
                    - KERNEL_STACK_SIZE,
                app_id * (KERNEL_STACK_SIZE + PAGE_SIZE) + KERNEL_STACK_SIZE + PAGE_SIZE
                    <= TRAMPOLINE,
        ;
    }
    (bottom, top)
}

} // verus!
