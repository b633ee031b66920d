//! Task control blocks: the ownership container of one process.

use vstd::prelude::*;

use crate::address::VirtPageNum;
use crate::config::{KERNEL_STACK_SIZE, PAGE_SIZE, TRAMPOLINE};
use crate::frame_allocator::StackFrameAllocator;
use crate::fs::FdEntry;
use crate::loader::{build_user_space, ProgramImage};
use crate::memory_set::{MemorySet, TRAP_CONTEXT_VPN, MapType};
use crate::pid::{KernelStack, PidHandle};
use crate::signal::{SignalActions, SignalFlags};
use crate::task_context::TaskContext;
use crate::trap_context::TrapContext;

verus! {

/// Where a user trap enters the kernel. The value stands for the address of
/// the trap handler in the kernel image.
pub const TRAP_HANDLER_PC: usize = 0xFFFF_D000;

#[derive(Clone, Copy, PartialEq, Eq, Structural, Debug)]
pub enum TaskStatus {
    Ready,
    Running,
    Zombie,
}

/// The mutable interior of a task control block.
pub struct TaskControlBlockInner {
    pub task_status: TaskStatus,
    pub task_cx: TaskContext,
    pub memory_set: MemorySet,
    pub trap_cx_ppn: usize,
    pub trap_cx: TrapContext,
    pub base_size: usize,
    pub parent: Option<usize>,
    pub children: Vec<usize>,
    pub exit_code: i32,
    pub fd_table: Vec<Option<FdEntry>>,
    pub signals: SignalFlags,
    pub signal_mask: SignalFlags,
    pub handling_sig: i32,
    pub signal_actions: SignalActions,
    pub killed: bool,
    pub frozen: bool,
    pub trap_ctx_backup: Option<TrapContext>,
}

/// One process: its identity, its kernel stack and its mutable state.
pub struct TaskControlBlock {
    pub pid: PidHandle,
    pub kernel_stack: KernelStack,
    pub inner: TaskControlBlockInner,
}

impl TaskControlBlockInner {
    /// A copy of the task's saved user registers.
    pub fn get_trap_cx(&self) -> (r: TrapContext)
        ensures
            r == self.trap_cx,
    {
        self.trap_cx
    }

    /// The `satp` value of the task's address space.
    pub fn get_user_token(&self) -> (r: u64)
        ensures
            r == (8u64 << 60u64) | (self.memory_set.page_table.root_ppn.0 as u64),
    {
        self.memory_set.token()
    }

    pub fn get_status(&self) -> (r: TaskStatus)
        ensures
            r == self.task_status,
    {
        self.task_status
    }

    pub fn is_zombie(&self) -> (r: bool)
        ensures
            r == (self.task_status == TaskStatus::Zombie),
    {
        match self.task_status {
            TaskStatus::Zombie => true,
            _ => false,
        }
    }

    /// The lowest free file descriptor, growing the table when all are taken.
    pub fn alloc_fd(&mut self) -> (fd: usize)
        ensures
            fd < final(self).fd_table@.len(),
            final(self).fd_table@[fd as int] is None,
            forall|j: int| 0 <= j < fd ==> #[trigger] old(self).fd_table@[j] is Some,
            fd <= old(self).fd_table@.len(),
            fd < old(self).fd_table@.len() ==> final(self).fd_table@.len() == old(
                self,
            ).fd_table@.len(),
            fd == old(self).fd_table@.len() ==> final(self).fd_table@.len() == old(
                self,
            ).fd_table@.len() + 1,
            forall|j: int|
                0 <= j < old(self).fd_table@.len() ==> #[trigger] final(self).fd_table@[j] == old(
                    self,
                ).fd_table@[j],
            final(self).task_status == old(self).task_status,
            final(self).memory_set == old(self).memory_set,
            final(self).children == old(self).children,
            final(self).parent == old(self).parent,
            final(self).trap_cx == old(self).trap_cx,
            final(self).signals == old(self).signals,
            final(self).signal_actions == old(self).signal_actions,
            final(self).signal_mask == old(self).signal_mask,
            final(self).handling_sig == old(self).handling_sig,
            final(self).killed == old(self).killed,
            final(self).frozen == old(self).frozen,
            final(self).task_cx == old(self).task_cx,
            final(self).base_size == old(self).base_size,
            final(self).exit_code == old(self).exit_code,
            final(self).trap_ctx_backup == old(self).trap_ctx_backup,
            final(self).trap_cx_ppn == old(self).trap_cx_ppn,
    {
        let n = self.fd_table.len();
        let mut fd: usize = 0;
        while fd < n
            invariant
                fd <= n,
                n == self.fd_table@.len(),
                *self == *old(self),
                forall|j: int| 0 <= j < fd ==> #[trigger] self.fd_table@[j] is Some,
            decreases n - fd,
        {
            let free = match self.fd_table[fd] {
                None => true,
                Some(_) => false,
            };
            if free {
                return fd;
            }
            fd = fd + 1;
        }
        self.fd_table.push(None);
        n
    }
}

impl TaskControlBlock {
    pub fn getpid(&self) -> (r: usize)
        ensures
            r == self.pid.0,
    {
        self.pid.0
    }

    /// The structural facts the kernel keeps of every live task's interior.
    pub open spec fn inner_wf(self) -> bool {
        &&& self.inner.memory_set.wf()
        &&& self.inner.signal_actions.wf()
        &&& forall|i: int|
            0 <= i < self.inner.memory_set.areas@.len() ==> (
            #[trigger] self.inner.memory_set.areas@[i]).map_type == MapType::Framed
    }

    /// Assemble a fresh process from a program image: its address space, its
    /// trap context at the fixed page, standard descriptors 0..3, and a
    /// kernel context that enters the trap-exit path on first switch.
    pub fn new(
        prog: &ProgramImage,
        pid_handle: PidHandle,
        kernel_stack: KernelStack,
        kernel_satp: u64,
        allocator: &mut StackFrameAllocator,
    ) -> (r: TaskControlBlock)
        requires
            prog.wf(),
            old(allocator).wf(),
            old(allocator).free_count() >= prog.build_cost(),
            old(allocator).end as u64 <= crate::address::PPN_LIMIT,
            kernel_stack.pid == pid_handle.0,
            pid_handle.0 * (KERNEL_STACK_SIZE + PAGE_SIZE) + KERNEL_STACK_SIZE + PAGE_SIZE
                <= TRAMPOLINE,
        ensures
            final(allocator).wf(),
            final(allocator).start == old(allocator).start,
            final(allocator).end == old(allocator).end,
            old(allocator).outstanding().subset_of(final(allocator).outstanding()),
            r.inner_wf(),
            r.inner.memory_set.owns(*final(allocator)),
            r.inner.memory_set.trampoline_ppn == Some(crate::loader::STRAMPOLINE_PPN),
            forall|p: usize|
                #[trigger] r.inner.memory_set.is_frame_of(p) ==> !old(
                    allocator,
                ).outstanding().contains(p),
            r.pid == pid_handle,
            r.kernel_stack == kernel_stack,
            r.inner.task_status == TaskStatus::Ready,
            r.inner.trap_cx.sepc == prog.entry,
            r.inner.trap_cx.x@[2] == (prog.spec_end() + 1 + (
            crate::config::USER_STACK_SIZE as int) / (PAGE_SIZE as int)) * PAGE_SIZE,
            r.inner.trap_cx.kernel_satp == kernel_satp,
            r.inner.trap_cx.trap_handler == TRAP_HANDLER_PC,
            r.inner.base_size == r.inner.trap_cx.x@[2],
            r.inner.parent is None,
            r.inner.children@.len() == 0,
            r.inner.exit_code == 0,
            r.inner.fd_table@.len() == 3,
            r.inner.fd_table@[0] == Some(FdEntry::Stdin),
            r.inner.fd_table@[1] == Some(FdEntry::Stdout),
            r.inner.fd_table@[2] == Some(FdEntry::Stdout),
            r.inner.signals.bits == 0,
            r.inner.signal_mask.bits == 0,
            r.inner.handling_sig == -1,
            !r.inner.killed,
            !r.inner.frozen,
            r.inner.trap_ctx_backup is None,
            r.inner.task_cx.ra == crate::task_context::TRAP_RETURN_PC,
            // the loaded image is in place
            forall|i: int, off: int|
                0 <= i < prog.segments@.len() && 0 <= off < prog.segments@[i].data@.len()
                    ==> #[trigger] r.inner.memory_set.byte_at(
                    (prog.segments@[i].start_vpn * PAGE_SIZE + off) as nat,
                ) == Some(prog.segments@[i].data@[off]),
    {
        let (memory_set, user_sp, entry) = build_user_space(prog, allocator);
        let trap_cx_ppn = match memory_set.translate(VirtPageNum(TRAP_CONTEXT_VPN)) {
            Some(pte) => {
                proof {
                    let k = memory_set.area_index_of(TRAP_CONTEXT_VPN as nat);
                    assert(memory_set.areas@[k].contains_vpn(TRAP_CONTEXT_VPN as nat));
                    assert(memory_set.area_page_mapped(k, TRAP_CONTEXT_VPN as nat));
                }
                pte.ppn_bits()
            },
            None => {
                proof {
                    let k = memory_set.area_index_of(TRAP_CONTEXT_VPN as nat);
                    assert(memory_set.areas@[k].contains_vpn(TRAP_CONTEXT_VPN as nat));
                    assert(memory_set.area_page_mapped(k, TRAP_CONTEXT_VPN as nat));
                    assert(false);
                }
                vstd::pervasive::unreached()
            },
        };
        let kernel_stack_top = kernel_stack.get_top();
        let trap_cx = TrapContext::app_init_context(
            entry,
            user_sp,
            kernel_satp,
            kernel_stack_top,
            TRAP_HANDLER_PC,
        );
        let mut fd_table: Vec<Option<FdEntry>> = Vec::new();
        fd_table.push(Some(FdEntry::Stdin));
        fd_table.push(Some(FdEntry::Stdout));
        fd_table.push(Some(FdEntry::Stdout));
        let trap_cx_ppn_usize: usize = if trap_cx_ppn <= usize::MAX as u64 {
            trap_cx_ppn as usize
        } else {
            0
        };
        TaskControlBlock {
            pid: pid_handle,
            kernel_stack,
            inner: TaskControlBlockInner {
                task_status: TaskStatus::Ready,
                task_cx: TaskContext::goto_trap_return(kernel_stack_top),
                memory_set,
                trap_cx_ppn: trap_cx_ppn_usize,
                trap_cx,
                base_size: user_sp,
                parent: None,
                children: Vec::new(),
                exit_code: 0,
                fd_table,
                signals: SignalFlags::empty(),
                signal_mask: SignalFlags::empty(),
                handling_sig: -1,
                signal_actions: SignalActions::default(),
                killed: false,
                frozen: false,
                trap_ctx_backup: None,
            },
        }
    }
}

} // verus!
