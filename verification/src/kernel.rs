//! The kernel proper: the task table keyed by PID, the round-robin ready
//! queue, the processor slot, the shared allocators, the pipe table, the
//! program table standing for the executables on disk, and the console.
//!
//! Weak links of the process tree — a child's parent — are PIDs looked up in
//! the task table, never owning references; parents own their children's
//! PIDs. The one global frame pool backs every address space, and no two
//! live spaces share a frame.

use vstd::prelude::*;

use crate::config::{KERNEL_STACK_SIZE, PAGE_SIZE, TRAMPOLINE};
use crate::frame_allocator::StackFrameAllocator;
use crate::fs::FdEntry;
use crate::loader::ProgramImage;
use crate::memory_set::MemorySet;
use crate::pid::{KernelStack, PidAllocator, PidHandle};
use crate::pipe::{Pipe, PipeRingBuffer};
use crate::task::{TaskControlBlock, TaskStatus};
use crate::task_context::TaskContext;

verus! {

/// The PID of the init process, which adopts orphans and never exits.
pub const IDLE_PID: usize = 0;

/// Milliseconds the model clock advances per timer interrupt.
pub const TICK_MS: usize = 10;

pub const SYSCALL_DUP: usize = 24;
pub const SYSCALL_OPEN: usize = 56;
pub const SYSCALL_CLOSE: usize = 57;
pub const SYSCALL_PIPE: usize = 59;
pub const SYSCALL_READ: usize = 63;
pub const SYSCALL_WRITE: usize = 64;
pub const SYSCALL_EXIT: usize = 93;
pub const SYSCALL_YIELD: usize = 124;
pub const SYSCALL_KILL: usize = 129;
pub const SYSCALL_SIGACTION: usize = 134;
pub const SYSCALL_SIGPROCMASK: usize = 135;
pub const SYSCALL_SIGRETURN: usize = 139;
pub const SYSCALL_GET_TIME: usize = 169;
pub const SYSCALL_GETPID: usize = 172;
pub const SYSCALL_FORK: usize = 220;
pub const SYSCALL_EXEC: usize = 221;
pub const SYSCALL_WAITPID: usize = 260;

/// What raised a user trap, as read from the trap cause register.
#[derive(Clone, Copy, PartialEq, Eq, Structural, Debug)]
pub enum TrapCause {
    UserEnvCall,
    StoreFault,
    StorePageFault,
    InstructionFault,
    InstructionPageFault,
    LoadFault,
    LoadPageFault,
    IllegalInstruction,
    SupervisorTimer,
}

/// What the dispatcher decided: execute a demuxed syscall, return to the user
/// after a recorded fault signal, or resume the idle loop after preemption.
#[derive(Clone, Copy, PartialEq, Eq, Structural, Debug)]
pub enum TrapAction {
    Syscall { id: usize, a0: usize, a1: usize, a2: usize },
    FaultSignalled,
    TimerPreempted,
}

/// The per-hart slot: the running task and the idle loop's own context.
pub struct Processor {
    pub current: Option<usize>,
    pub idle_task_cx: TaskContext,
}

impl Processor {
    pub fn new() -> (r: Processor)
        ensures
            r.current is None,
    {
        Processor { current: None, idle_task_cx: TaskContext::zero_init() }
    }

    /// Give up the running task, leaving the slot empty.
    pub fn take_current(&mut self) -> (r: Option<usize>)
        ensures
            r == old(self).current,
            final(self).current is None,
            final(self).idle_task_cx == old(self).idle_task_cx,
    {
        self.current.take()
    }

    /// The running task, if any.
    pub fn current(&self) -> (r: Option<usize>)
        ensures
            r == self.current,
    {
        self.current
    }
}

/// The kernel state.
pub struct Kernel {
    pub tasks: Vec<Option<TaskControlBlock>>,
    pub ready_queue: Vec<usize>,
    pub processor: Processor,
    pub pid_allocator: PidAllocator,
    pub frame_allocator: StackFrameAllocator,
    pub kernel_satp: u64,
    pub pipes: Vec<PipeRingBuffer>,
    pub programs: Vec<ProgramImage>,
    pub console_out: Vec<u8>,
    pub console_in: Vec<u8>,
    pub time_ms: usize,
}

impl Kernel {
    /// PID `p` names a live task: its slot is occupied.
    pub open spec fn live(self, p: int) -> bool {
        0 <= p < self.tasks@.len() && self.tasks@[p] is Some
    }

    pub open spec fn task(self, p: int) -> TaskControlBlock {
        self.tasks@[p]->Some_0
    }

    /// Per-task facts the kernel keeps for every live PID.
    pub open spec fn task_wf(self, p: int) -> bool {
        let t = self.task(p);
        &&& t.pid.0 == p
        &&& t.kernel_stack.pid == p
        &&& t.inner_wf()
        &&& t.inner.memory_set.owns(self.frame_allocator)
        &&& forall|fd: int|
            0 <= fd < t.inner.fd_table@.len() ==> match #[trigger] t.inner.fd_table@[fd] {
                Some(FdEntry::PipeEnd(pp)) => pp.buffer_id < self.pipes@.len(),
                _ => true,
            }
        &&& forall|ci: int|
            0 <= ci < t.inner.children@.len() ==> self.live(
                (#[trigger] t.inner.children@[ci]) as int,
            )
        &&& match t.inner.parent {
            Some(pp) => pp < self.tasks@.len(),
            None => true,
        }
        &&& match t.inner.memory_set.trampoline_ppn {
            Some(tp) => (tp as u64) < crate::address::PPN_LIMIT,
            None => true,
        }
        &&& forall|ci: int|
            0 <= ci < t.inner.children@.len() ==> (#[trigger] t.inner.children@[ci]) != IDLE_PID
                && t.inner.children@[ci] != p
        &&& -1 <= t.inner.handling_sig <= crate::signal::MAX_SIG as i32
    }

    /// The global invariant.
    pub open spec fn wf(self) -> bool {
        &&& self.pid_allocator.wf()
        &&& self.frame_allocator.wf()
        &&& self.frame_allocator.end as u64 <= crate::address::PPN_LIMIT
        &&& self.tasks@.len() == self.pid_allocator.current
        &&& self.tasks@.len() * (KERNEL_STACK_SIZE + PAGE_SIZE) + KERNEL_STACK_SIZE + PAGE_SIZE
            <= TRAMPOLINE
        &&& forall|p: int|
            0 <= p < self.tasks@.len() ==> (self.live(p) <==> self.pid_allocator.outstanding().contains(
                p as usize,
            ))
        &&& forall|p: int| self.live(p) ==> #[trigger] self.task_wf(p)
        // no frame backs two live address spaces
        &&& forall|p1: int, p2: int, q: usize|
            self.live(p1) && self.live(p2) && p1 != p2 ==> !(
            #[trigger] self.task(p1).inner.memory_set.is_frame_of(q)
                && #[trigger] self.task(p2).inner.memory_set.is_frame_of(q))
        &&& forall|i: int| 0 <= i < self.pipes@.len() ==> (#[trigger] self.pipes@[i]).wf()
        &&& forall|i: int|
            0 <= i < self.ready_queue@.len() ==> self.live((#[trigger] self.ready_queue@[i]) as int)
                && self.task(self.ready_queue@[i] as int).inner.task_status == TaskStatus::Ready
        &&& forall|i: int, j: int|
            0 <= i < j < self.ready_queue@.len() ==> (#[trigger] self.ready_queue@[i]) != (
            #[trigger] self.ready_queue@[j])
        &&& match self.processor.current {
            Some(c) => self.live(c as int) && (forall|i: int|
                0 <= i < self.ready_queue@.len() ==> (#[trigger] self.ready_queue@[i]) != c),
            None => true,
        }
        // a live task sits in at most one children list, once
        &&& forall|p1: int, p2: int, i1: int, i2: int|
            self.live(p1) && self.live(p2) && 0 <= i1 < self.task(p1).inner.children@.len() && 0
                <= i2 < self.task(p2).inner.children@.len() && (
            #[trigger] self.task(p1).inner.children@[i1]) == (
            #[trigger] self.task(p2).inner.children@[i2]) ==> p1 == p2 && i1 == i2
    }

    /// A kernel over the physical range `[mem_start, mem_end)` with the given
    /// program table and nothing running yet.
    pub fn new(mem_start: usize, mem_end: usize, programs: Vec<ProgramImage>) -> (r: Kernel)
        requires
            mem_start <= mem_end,
            (mem_end as u64) <= crate::address::PPN_LIMIT,
        ensures
            r.wf(),
            r.tasks@.len() == 0,
            r.ready_queue@.len() == 0,
            r.processor.current is None,
            r.pipes@.len() == 0,
            r.console_out@.len() == 0,
            r.console_in@.len() == 0,
            r.frame_allocator.free_count() == mem_end - mem_start,
            r.programs == programs,
    {
        let mut frame_allocator = StackFrameAllocator::new();
        frame_allocator.init(
            crate::address::PhysPageNum(mem_start),
            crate::address::PhysPageNum(mem_end),
        );
        let kernel_satp: u64 = (8u64 << 60u64) | 0x80000u64;
        let r = Kernel {
            tasks: Vec::new(),
            ready_queue: Vec::new(),
            processor: Processor::new(),
            pid_allocator: PidAllocator::new(),
            frame_allocator,
            kernel_satp,
            pipes: Vec::new(),
            programs,
            console_out: Vec::new(),
            console_in: Vec::new(),
            time_ms: 0,
        };
        proof {
            assert(usize::BITS == 32 || usize::BITS == 64);
            assert(r.wf());
        }
        r
    }

    /// Scheduling state — the queue and the processor slot — may change
    /// freely as long as it names live tasks.
    proof fn lemma_scheduling_update(pre: Kernel, post: Kernel)
        requires
            pre.wf(),
            post.tasks == pre.tasks,
            post.pid_allocator == pre.pid_allocator,
            post.frame_allocator == pre.frame_allocator,
            post.pipes == pre.pipes,
            forall|i: int|
                0 <= i < post.ready_queue@.len() ==> post.live(
                    (#[trigger] post.ready_queue@[i]) as int,
                ) && post.task(post.ready_queue@[i] as int).inner.task_status == TaskStatus::Ready,
            forall|i: int, j: int|
                0 <= i < j < post.ready_queue@.len() ==> (#[trigger] post.ready_queue@[i]) != (
                #[trigger] post.ready_queue@[j]),
            match post.processor.current {
                Some(c) => post.live(c as int) && (forall|i: int|
                    0 <= i < post.ready_queue@.len() ==> (#[trigger] post.ready_queue@[i]) != c),
                None => true,
            },
        ensures
            post.wf(),
    {
        assert forall|p: int| 0 <= p < post.tasks@.len() implies (post.live(p)
            <==> post.pid_allocator.outstanding().contains(p as usize)) by {
            assert(pre.live(p) <==> pre.pid_allocator.outstanding().contains(p as usize));
            assert(post.tasks@[p] == pre.tasks@[p]);
        }
        assert forall|q: int| post.live(q) implies #[trigger] post.task_wf(q) by {
            assert(pre.task_wf(q));
            assert(post.task(q) == pre.task(q));
        }
        assert forall|p1: int, p2: int, q: usize|
            post.live(p1) && post.live(p2) && p1 != p2 implies !(
        #[trigger] post.task(p1).inner.memory_set.is_frame_of(q)
            && #[trigger] post.task(p2).inner.memory_set.is_frame_of(q)) by {
            assert(post.task(p1) == pre.task(p1));
            assert(post.task(p2) == pre.task(p2));
        }
        assert forall|p1: int, p2: int, i1: int, i2: int|
            post.live(p1) && post.live(p2) && 0 <= i1 < post.task(p1).inner.children@.len() && 0
                <= i2 < post.task(p2).inner.children@.len() && (
            #[trigger] post.task(p1).inner.children@[i1]) == (
            #[trigger] post.task(p2).inner.children@[i2]) implies p1 == p2 && i1 == i2 by {
            assert(post.task(p1) == pre.task(p1));
            assert(post.task(p2) == pre.task(p2));
        }
    }

    /// Append a task to the back of the FIFO ready queue.
    pub fn add_task(&mut self, pid: usize)
        requires
            old(self).wf(),
            old(self).live(pid as int),
            old(self).task(pid as int).inner.task_status == TaskStatus::Ready,
            forall|i: int|
                0 <= i < old(self).ready_queue@.len() ==> (#[trigger] old(self).ready_queue@[i])
                    != pid,
            old(self).processor.current != Some(pid),
        ensures
            final(self).wf(),
            final(self).ready_queue@ == old(self).ready_queue@.push(pid),
            final(self).tasks == old(self).tasks,
            final(self).processor == old(self).processor,
            final(self).pipes == old(self).pipes,
            final(self).console_out == old(self).console_out,
            final(self).time_ms == old(self).time_ms,
            final(self).pid_allocator == old(self).pid_allocator,
            final(self).frame_allocator == old(self).frame_allocator,
    {
        let ghost pre = *self;
        self.ready_queue.push(pid);
        proof {
            assert forall|i: int| 0 <= i < self.ready_queue@.len() implies self.live(
                (#[trigger] self.ready_queue@[i]) as int,
            ) && self.task(self.ready_queue@[i] as int).inner.task_status == TaskStatus::Ready by {
                if i < pre.ready_queue@.len() {
                    assert(self.ready_queue@[i] == pre.ready_queue@[i]);
                }
            }
            assert forall|i: int, j: int| 0 <= i < j < self.ready_queue@.len() implies (
            #[trigger] self.ready_queue@[i]) != (#[trigger] self.ready_queue@[j]) by {
                if j < pre.ready_queue@.len() {
                    assert(pre.ready_queue@[i] != pre.ready_queue@[j]);
                } else {
                    assert(self.ready_queue@[i] == pre.ready_queue@[i]);
                    assert(self.ready_queue@[j] == pid);
                }
            }
            Kernel::lemma_scheduling_update(pre, *self);
        }
    }

    /// Pop the front of the ready queue.
    pub fn fetch_task(&mut self) -> (r: Option<usize>)
        requires
            old(self).wf(),
        ensures
            final(self).wf(),
            match r {
                Some(p) => old(self).ready_queue@.len() > 0 && p == old(self).ready_queue@[0]
                    && final(self).ready_queue@ == old(self).ready_queue@.skip(1) && final(self).live(p as int)
                    && final(self).task(p as int).inner.task_status == TaskStatus::Ready && (
                forall|i: int|
                    0 <= i < final(self).ready_queue@.len() ==> (
                    #[trigger] final(self).ready_queue@[i]) != p),
                None => old(self).ready_queue@.len() == 0 && final(self).ready_queue@ == old(self).ready_queue@,
            },
            final(self).tasks == old(self).tasks,
            final(self).processor == old(self).processor,
            final(self).console_out == old(self).console_out,
    {
        if self.ready_queue.len() == 0 {
            return None;
        }
        let ghost pre = *self;
        let p = self.ready_queue.remove(0);
        proof {
            assert(self.ready_queue@ =~= pre.ready_queue@.skip(1));
            assert forall|i: int| 0 <= i < self.ready_queue@.len() implies self.live(
                (#[trigger] self.ready_queue@[i]) as int,
            ) && self.task(self.ready_queue@[i] as int).inner.task_status == TaskStatus::Ready by {
                assert(self.ready_queue@[i] == pre.ready_queue@[i + 1]);
            }
            assert forall|i: int, j: int| 0 <= i < j < self.ready_queue@.len() implies (
            #[trigger] self.ready_queue@[i]) != (#[trigger] self.ready_queue@[j]) by {
                assert(self.ready_queue@[i] == pre.ready_queue@[i + 1]);
                assert(self.ready_queue@[j] == pre.ready_queue@[j + 1]);
            }
            Kernel::lemma_scheduling_update(pre, *self);
        }
        Some(p)
    }

    /// One turn of the idle loop: take the next ready task, mark it running
    /// and install it as current. Nothing to do when the queue is empty.
    pub fn run_tasks_step(&mut self) -> (r: Option<usize>)
        requires
            old(self).wf(),
            old(self).processor.current is None,
        ensures
            final(self).wf(),
            match r {
                Some(p) => {
                    &&& old(self).ready_queue@.len() > 0
                    &&& p == old(self).ready_queue@[0]
                    &&& final(self).processor.current == Some(p)
                    &&& final(self).live(p as int)
                    &&& final(self).task(p as int).inner.task_status == TaskStatus::Running
                    &&& final(self).ready_queue@ == old(self).ready_queue@.skip(1)
                },
                None => old(self).ready_queue@.len() == 0 && final(self).processor.current is None,
            },
    {
        let next = self.fetch_task();
        match next {
            Some(p) => {
                let ghost pre = *self;
                let mut t = match self.tasks[p].take() {
                    Some(t) => t,
                    None => {
                        proof {
                            assert(false);
                        }
                        vstd::pervasive::unreached()
                    },
                };
                t.inner.task_status = TaskStatus::Running;
                self.tasks[p] = Some(t);
                self.processor.current = Some(p);
                proof {
                    assert(pre.task_wf(p as int));
                    self.lemma_one_task_updated(pre, p as int);
                }
                Some(p)
            },
            None => None,
        }
    }

    /// Re-establish the invariant after one task's interior changed in ways
    /// that preserve its own facts: same PID, same stack PID, same
    /// well-formed space and descriptors table shape, same children.
    proof fn lemma_one_task_updated(self, pre: Kernel, p: int)
        requires
            pre.wf(),
            pre.live(p),
            self.live(p),
            self.tasks@.len() == pre.tasks@.len(),
            forall|q: int| 0 <= q < pre.tasks@.len() && q != p ==> self.tasks@[q] == pre.tasks@[q],
            self.ready_queue == pre.ready_queue,
            self.pid_allocator == pre.pid_allocator,
            self.frame_allocator == pre.frame_allocator,
            self.pipes == pre.pipes,
            match self.processor.current {
                Some(c) => self.live(c as int) && (forall|i: int|
                    0 <= i < self.ready_queue@.len() ==> (#[trigger] self.ready_queue@[i]) != c),
                None => true,
            },
            // the changed task keeps its identity and structure
            self.task(p).pid == pre.task(p).pid,
            self.task(p).kernel_stack == pre.task(p).kernel_stack,
            self.task(p).inner.memory_set == pre.task(p).inner.memory_set,
            self.task(p).inner.fd_table == pre.task(p).inner.fd_table,
            self.task(p).inner.children == pre.task(p).inner.children,
            self.task(p).inner.parent == pre.task(p).inner.parent,
            self.task(p).inner.signal_actions == pre.task(p).inner.signal_actions,
            -1 <= self.task(p).inner.handling_sig <= crate::signal::MAX_SIG as i32,
            (self.task(p).inner.task_status == TaskStatus::Ready || (forall|i: int|
                0 <= i < self.ready_queue@.len() ==> (#[trigger] self.ready_queue@[i])
                    != p as usize)),
        ensures
            self.wf(),
    {
        assert forall|p2: int| 0 <= p2 < self.tasks@.len() implies (self.live(p2)
            <==> self.pid_allocator.outstanding().contains(p2 as usize)) by {
            assert(pre.live(p2) <==> pre.pid_allocator.outstanding().contains(p2 as usize));
            if p2 != p {
                assert(self.tasks@[p2] == pre.tasks@[p2]);
            }
        }
        assert forall|q: int| self.live(q) implies #[trigger] self.task_wf(q) by {
            assert(pre.task_wf(q));
            if q != p {
                assert(self.task(q) == pre.task(q));
            }
        }
        assert forall|p1: int, p2: int, q: usize|
            self.live(p1) && self.live(p2) && p1 != p2 implies !(
        #[trigger] self.task(p1).inner.memory_set.is_frame_of(q)
            && #[trigger] self.task(p2).inner.memory_set.is_frame_of(q)) by {
            assert(self.task(p1).inner.memory_set == pre.task(p1).inner.memory_set);
            assert(self.task(p2).inner.memory_set == pre.task(p2).inner.memory_set);
        }
        assert forall|p1: int, p2: int, i1: int, i2: int|
            self.live(p1) && self.live(p2) && 0 <= i1 < self.task(p1).inner.children@.len() && 0
                <= i2 < self.task(p2).inner.children@.len() && (
            #[trigger] self.task(p1).inner.children@[i1]) == (
            #[trigger] self.task(p2).inner.children@[i2]) implies p1 == p2 && i1 == i2 by {
            assert(self.task(p1).inner.children == pre.task(p1).inner.children);
            assert(self.task(p2).inner.children == pre.task(p2).inner.children);
        }
    }

    /// The running task, if any.
    pub fn current_task(&self) -> (r: Option<usize>)
        ensures
            r == self.processor.current,
    {
        self.processor.current()
    }

    /// Take the running task out of the processor slot.
    pub fn take_current_task(&mut self) -> (r: Option<usize>)
        requires
            old(self).wf(),
        ensures
            final(self).wf(),
            r == old(self).processor.current,
            final(self).processor.current is None,
            final(self).processor.idle_task_cx == old(self).processor.idle_task_cx,
            final(self).tasks == old(self).tasks,
            final(self).ready_queue == old(self).ready_queue,
            final(self).pipes == old(self).pipes,
            final(self).console_out == old(self).console_out,
            final(self).time_ms == old(self).time_ms,
            final(self).pid_allocator == old(self).pid_allocator,
            final(self).frame_allocator == old(self).frame_allocator,
    {
        let ghost pre = *self;
        let r = self.processor.take_current();
        proof {
            Kernel::lemma_scheduling_update(pre, *self);
        }
        r
    }

    /// The `satp` of the running task's space.
    pub fn current_user_token(&self) -> (r: u64)
        requires
            self.wf(),
            self.processor.current is Some,
        ensures
            r == (8u64 << 60u64) | (self.task(
                self.processor.current->Some_0 as int,
            ).inner.memory_set.page_table.root_ppn.0 as u64),
    {
        let c = match self.processor.current {
            Some(c) => c,
            None => {
                proof {
                    assert(false);
                }
                vstd::pervasive::unreached()
            },
        };
        match self.tasks[c].as_ref() {
            Some(t) => t.inner.get_user_token(),
            None => {
                proof {
                    assert(false);
                }
                vstd::pervasive::unreached()
            },
        }
    }

    /// A copy of the running task's saved user registers.
    pub fn current_trap_cx(&self) -> (r: crate::trap_context::TrapContext)
        requires
            self.wf(),
            self.processor.current is Some,
        ensures
            r == self.task(self.processor.current->Some_0 as int).inner.trap_cx,
    {
        let c = match self.processor.current {
            Some(c) => c,
            None => {
                proof {
                    assert(false);
                }
                vstd::pervasive::unreached()
            },
        };
        match self.tasks[c].as_ref() {
            Some(t) => t.inner.get_trap_cx(),
            None => {
                proof {
                    assert(false);
                }
                vstd::pervasive::unreached()
            },
        }
    }

    /// Create the init process from program 0 and make it ready. The very
    /// first task gets PID 0.
    pub fn add_initproc(&mut self)
        requires
            old(self).wf(),
            old(self).tasks@.len() == 0,
            old(self).programs@.len() > 0,
            old(self).programs@[0].wf(),
            old(self).frame_allocator.free_count() >= old(self).programs@[0].build_cost(),
        ensures
            final(self).wf(),
            final(self).live(IDLE_PID as int),
            final(self).tasks@.len() == 1,
            final(self).ready_queue@.len() == old(self).ready_queue@.len() + 1,
            final(self).task(IDLE_PID as int).inner.task_status == TaskStatus::Ready,
            // the init process runs program 0, with the standard descriptors
            final(self).task(IDLE_PID as int).inner.trap_cx.sepc == old(self).programs@[0].entry,
            final(self).task(IDLE_PID as int).inner.fd_table@.len() == 3,
            final(self).task(IDLE_PID as int).inner.fd_table@[0] == Some(FdEntry::Stdin),
            final(self).task(IDLE_PID as int).inner.fd_table@[1] == Some(FdEntry::Stdout),
            final(self).task(IDLE_PID as int).inner.fd_table@[2] == Some(FdEntry::Stdout),
            final(self).task(IDLE_PID as int).inner.trap_cx.x@[2] == (old(self).programs@[0].spec_end() + 1 + (crate::config::USER_STACK_SIZE as int) / (
            PAGE_SIZE as int)) * PAGE_SIZE,
            final(self).task(IDLE_PID as int).inner.trap_cx.kernel_satp == old(self).kernel_satp,
            final(self).task(IDLE_PID as int).inner.trap_cx.trap_handler
                == crate::task::TRAP_HANDLER_PC,
            final(self).task(IDLE_PID as int).inner.signals.bits == 0,
            final(self).task(IDLE_PID as int).inner.signal_mask.bits == 0,
            forall|i: int, off: int|
                0 <= i < old(self).programs@[0].segments@.len() && 0 <= off < old(self).programs@[0].segments@[i].data@.len() ==> #[trigger] final(self).task(
                    IDLE_PID as int,
                ).inner.memory_set.byte_at(
                    (old(self).programs@[0].segments@[i].start_vpn * PAGE_SIZE + off) as nat,
                ) == Some(old(self).programs@[0].segments@[i].data@[off]),
    {
        let pid_handle = self.pid_allocator.allocate();
        let ghost ph = pid_handle;
        proof {
            assert(ph.0 == 0);
        }
        let kernel_stack = KernelStack { pid: pid_handle.0 };
        let prog = &self.programs[0];
        let ghost pre_alloc = self.frame_allocator;
        let t = TaskControlBlock::new(
            prog,
            pid_handle,
            kernel_stack,
            self.kernel_satp,
            &mut self.frame_allocator,
        );
        self.tasks.push(Some(t));
        proof {
            let post = *self;
            assert(post.live(0));
            assert(post.task(0).pid.0 == 0);
            assert forall|p: int| 0 <= p < post.tasks@.len() implies (post.live(p)
                <==> post.pid_allocator.outstanding().contains(p as usize)) by {
                assert(post.pid_allocator.outstanding().contains(0usize));
            }
            assert forall|q: int| post.live(q) implies #[trigger] post.task_wf(q) by {
                assert(q == 0);
                post.task(0).inner.memory_set.lemma_owns_superset(
                    self.frame_allocator,
                    post.frame_allocator,
                );
            }
            assert(post.wf());
        }
        self.add_task(0);
    }

    /// How many writable capabilities on ring `bid` the first `upto` slots of
    /// a descriptor table hold.
    pub open spec fn table_wcount(t: Seq<Option<FdEntry>>, bid: int, upto: int) -> int
        decreases upto,
    {
        if upto <= 0 {
            0
        } else {
            Kernel::table_wcount(t, bid, upto - 1) + (match t[upto - 1] {
                Some(FdEntry::PipeEnd(p)) => if p.writable && p.buffer_id == bid {
                    1int
                } else {
                    0int
                },
                _ => 0int,
            })
        }
    }

    /// Counting more slots never counts fewer ends.
    pub proof fn lemma_table_wcount_mono(t: Seq<Option<FdEntry>>, bid: int, a: int, b: int)
        requires
            a <= b,
        ensures
            Kernel::table_wcount(t, bid, a) <= Kernel::table_wcount(t, bid, b),
        decreases b - a,
    {
        if a < b {
            Kernel::lemma_table_wcount_mono(t, bid, a, b - 1);
        }
    }

    /// Register, on every ring, the write ends a copied descriptor table
    /// carries: the bookkeeping a reference-counted kernel gets from cloning
    /// the `Arc`s.
    fn register_table_write_ends(&mut self, table: &Vec<Option<FdEntry>>)
        requires
            old(self).wf(),
            forall|fd: int|
                0 <= fd < table@.len() ==> match #[trigger] table@[fd] {
                    Some(FdEntry::PipeEnd(pp)) => pp.buffer_id < old(self).pipes@.len(),
                    _ => true,
                },
        ensures
            final(self).wf(),
            final(self).tasks == old(self).tasks,
            final(self).ready_queue == old(self).ready_queue,
            final(self).processor == old(self).processor,
            final(self).pid_allocator == old(self).pid_allocator,
            final(self).frame_allocator == old(self).frame_allocator,
            final(self).console_out == old(self).console_out,
            final(self).console_in == old(self).console_in,
            final(self).time_ms == old(self).time_ms,
            final(self).programs == old(self).programs,
            final(self).pipes@.len() == old(self).pipes@.len(),
            forall|b: int|
                0 <= b < old(self).pipes@.len() ==> (#[trigger] final(self).pipes@[b]).view()
                    == old(self).pipes@[b].view() && final(self).pipes@[b].wf(),
            forall|b: int|
                0 <= b < old(self).pipes@.len() && old(self).pipes@[b].write_ends
                    + Kernel::table_wcount(table@, b, table@.len() as int) <= usize::MAX ==> (
                #[trigger] final(self).pipes@[b]).write_ends == old(self).pipes@[b].write_ends
                    + Kernel::table_wcount(table@, b, table@.len() as int),
    {
        let ghost pre = *self;
        let n = table.len();
        let mut k: usize = 0;
        while k < n
            invariant
                pre.wf(),
                n == table@.len(),
                k <= n,
                forall|fd: int|
                    0 <= fd < table@.len() ==> match #[trigger] table@[fd] {
                        Some(FdEntry::PipeEnd(pp)) => pp.buffer_id < pre.pipes@.len(),
                        _ => true,
                    },
                self.tasks == pre.tasks,
                self.ready_queue == pre.ready_queue,
                self.processor == pre.processor,
                self.pid_allocator == pre.pid_allocator,
                self.frame_allocator == pre.frame_allocator,
                self.console_out == pre.console_out,
                self.console_in == pre.console_in,
                self.time_ms == pre.time_ms,
                self.programs == pre.programs,
                self.pipes@.len() == pre.pipes@.len(),
                forall|b: int|
                    0 <= b < pre.pipes@.len() ==> (#[trigger] self.pipes@[b]).view()
                        == pre.pipes@[b].view() && self.pipes@[b].wf(),
                forall|b: int|
                    0 <= b < pre.pipes@.len() ==> (#[trigger] self.pipes@[b]).write_ends
                        <= pre.pipes@[b].write_ends + Kernel::table_wcount(table@, b, k as int),
                forall|b: int|
                    0 <= b < pre.pipes@.len() && pre.pipes@[b].write_ends + Kernel::table_wcount(
                        table@,
                        b,
                        k as int,
                    ) <= usize::MAX ==> (#[trigger] self.pipes@[b]).write_ends
                        == pre.pipes@[b].write_ends + Kernel::table_wcount(table@, b, k as int),
            decreases n - k,
        {
            let entry = table[k];
            match entry {
                Some(FdEntry::PipeEnd(p)) => {
                    if p.writable {
                        let ghost mid = *self;
                        self.pipes[p.buffer_id].set_write_end();
                        proof {
                            assert forall|b: int| 0 <= b < pre.pipes@.len() implies (
                            #[trigger] self.pipes@[b]).view() == pre.pipes@[b].view()
                                && self.pipes@[b].wf() by {
                                if b != p.buffer_id as int {
                                    assert(self.pipes@[b] == mid.pipes@[b]);
                                }
                            }
                            assert forall|b: int|
                                0 <= b < pre.pipes@.len() implies (
                            #[trigger] self.pipes@[b]).write_ends <= pre.pipes@[b].write_ends
                                + Kernel::table_wcount(table@, b, k as int + 1) by {
                                Kernel::lemma_table_wcount_mono(table@, b, k as int, k as int + 1);
                                if b != p.buffer_id as int {
                                    assert(self.pipes@[b] == mid.pipes@[b]);
                                }
                            }
                            assert forall|b: int|
                                0 <= b < pre.pipes@.len() && pre.pipes@[b].write_ends
                                    + Kernel::table_wcount(table@, b, k as int + 1)
                                    <= usize::MAX implies (
                            #[trigger] self.pipes@[b]).write_ends == pre.pipes@[b].write_ends
                                + Kernel::table_wcount(table@, b, k as int + 1) by {
                                Kernel::lemma_table_wcount_mono(table@, b, k as int, k as int + 1);
                                if b != p.buffer_id as int {
                                    assert(self.pipes@[b] == mid.pipes@[b]);
                                }
                            }
                        }
                    }
                },
                _ => {},
            }
            proof {
                assert forall|b: int|
                    0 <= b < pre.pipes@.len() implies (#[trigger] self.pipes@[b]).write_ends
                    <= pre.pipes@[b].write_ends + Kernel::table_wcount(table@, b, k as int + 1) by {
                    Kernel::lemma_table_wcount_mono(table@, b, k as int, k as int + 1);
                }
                assert forall|b: int|
                    0 <= b < pre.pipes@.len() && pre.pipes@[b].write_ends + Kernel::table_wcount(
                        table@,
                        b,
                        k as int + 1,
                    ) <= usize::MAX implies (#[trigger] self.pipes@[b]).write_ends
                    == pre.pipes@[b].write_ends + Kernel::table_wcount(table@, b, k as int + 1) by {
                    Kernel::lemma_table_wcount_mono(table@, b, k as int, k as int + 1);
                }
            }
            k = k + 1;
        }
        proof {
            Kernel::lemma_pipes_updated(pre, *self);
        }
    }

    /// Drop, on every ring, the write ends a discarded descriptor table
    /// carried.
    fn drop_table_write_ends(&mut self, table: &Vec<Option<FdEntry>>)
        requires
            old(self).wf(),
            forall|fd: int|
                0 <= fd < table@.len() ==> match #[trigger] table@[fd] {
                    Some(FdEntry::PipeEnd(pp)) => pp.buffer_id < old(self).pipes@.len(),
                    _ => true,
                },
        ensures
            final(self).wf(),
            final(self).tasks == old(self).tasks,
            final(self).ready_queue == old(self).ready_queue,
            final(self).processor == old(self).processor,
            final(self).pid_allocator == old(self).pid_allocator,
            final(self).frame_allocator == old(self).frame_allocator,
            final(self).console_out == old(self).console_out,
            final(self).console_in == old(self).console_in,
            final(self).time_ms == old(self).time_ms,
            final(self).programs == old(self).programs,
            final(self).pipes@.len() == old(self).pipes@.len(),
            forall|b: int|
                0 <= b < old(self).pipes@.len() ==> (#[trigger] final(self).pipes@[b]).view()
                    == old(self).pipes@[b].view() && final(self).pipes@[b].wf(),
            forall|b: int|
                0 <= b < old(self).pipes@.len() && old(self).pipes@[b].write_ends
                    >= Kernel::table_wcount(table@, b, table@.len() as int) ==> (
                #[trigger] final(self).pipes@[b]).write_ends == old(self).pipes@[b].write_ends
                    - Kernel::table_wcount(table@, b, table@.len() as int),
    {
        let ghost pre = *self;
        let n = table.len();
        let mut k: usize = 0;
        while k < n
            invariant
                pre.wf(),
                n == table@.len(),
                k <= n,
                forall|fd: int|
                    0 <= fd < table@.len() ==> match #[trigger] table@[fd] {
                        Some(FdEntry::PipeEnd(pp)) => pp.buffer_id < pre.pipes@.len(),
                        _ => true,
                    },
                self.tasks == pre.tasks,
                self.ready_queue == pre.ready_queue,
                self.processor == pre.processor,
                self.pid_allocator == pre.pid_allocator,
                self.frame_allocator == pre.frame_allocator,
                self.console_out == pre.console_out,
                self.console_in == pre.console_in,
                self.time_ms == pre.time_ms,
                self.programs == pre.programs,
                self.pipes@.len() == pre.pipes@.len(),
                forall|b: int|
                    0 <= b < pre.pipes@.len() ==> (#[trigger] self.pipes@[b]).view()
                        == pre.pipes@[b].view() && self.pipes@[b].wf(),
                forall|b: int|
                    0 <= b < pre.pipes@.len() ==> (#[trigger] self.pipes@[b]).write_ends
                        >= pre.pipes@[b].write_ends - Kernel::table_wcount(table@, b, k as int),
                forall|b: int|
                    0 <= b < pre.pipes@.len() && pre.pipes@[b].write_ends >= Kernel::table_wcount(
                        table@,
                        b,
                        k as int,
                    ) ==> (#[trigger] self.pipes@[b]).write_ends == pre.pipes@[b].write_ends
                        - Kernel::table_wcount(table@, b, k as int),
            decreases n - k,
        {
            let entry = table[k];
            match entry {
                Some(FdEntry::PipeEnd(p)) => {
                    if p.writable {
                        let ghost mid = *self;
                        self.pipes[p.buffer_id].close_write_end();
                        proof {
                            assert forall|b: int| 0 <= b < pre.pipes@.len() implies (
                            #[trigger] self.pipes@[b]).view() == pre.pipes@[b].view()
                                && self.pipes@[b].wf() by {
                                if b != p.buffer_id as int {
                                    assert(self.pipes@[b] == mid.pipes@[b]);
                                }
                            }
                        }
                    }
                },
                _ => {},
            }
            proof {
                assert forall|b: int|
                    0 <= b < pre.pipes@.len() implies (#[trigger] self.pipes@[b]).write_ends
                    >= pre.pipes@[b].write_ends - Kernel::table_wcount(table@, b, k as int + 1) by {
                    Kernel::lemma_table_wcount_mono(table@, b, k as int, k as int + 1);
                }
                assert forall|b: int|
                    0 <= b < pre.pipes@.len() && pre.pipes@[b].write_ends >= Kernel::table_wcount(
                        table@,
                        b,
                        k as int + 1,
                    ) implies (#[trigger] self.pipes@[b]).write_ends == pre.pipes@[b].write_ends
                    - Kernel::table_wcount(table@, b, k as int + 1) by {
                    Kernel::lemma_table_wcount_mono(table@, b, k as int, k as int + 1);
                    Kernel::lemma_table_wcount_mono(table@, b, 0, k as int);
                }
            }
            k = k + 1;
        }
        proof {
            Kernel::lemma_pipes_updated(pre, *self);
        }
    }

    /// Duplicate a descriptor table, sharing the file objects.
    fn copy_fd_table(src: &Vec<Option<FdEntry>>) -> (r: Vec<Option<FdEntry>>)
        ensures
            r@ == src@,
    {
        let mut r: Vec<Option<FdEntry>> = Vec::new();
        let n = src.len();
        let mut i: usize = 0;
        while i < n
            invariant
                i <= n,
                n == src@.len(),
                r@.len() == i,
                forall|j: int| 0 <= j < i ==> r@[j] == src@[j],
            decreases n - i,
        {
            r.push(src[i]);
            i = i + 1;
        }
        proof {
            assert(r@ =~= src@);
        }
        r
    }

    /// Fork the running task: a deep copy of its address space, a fresh PID
    /// and kernel stack, the descriptor table shared entry for entry, signal
    /// mask and actions inherited, pending signals not. The child is made
    /// ready; the parent gets the child's PID, the child will see 0.
    pub fn sys_fork(&mut self) -> (r: isize)
        requires
            old(self).wf(),
            old(self).processor.current is Some,
            old(self).live(IDLE_PID as int),
            old(self).frame_allocator.free_count() >= 3
                + crate::memory_set::areas_cost_from(
                old(self).task(
                    old(self).processor.current->Some_0 as int,
                ).inner.memory_set.areas@,
                0,
            ),
            (old(self).tasks@.len() + 1) * (KERNEL_STACK_SIZE + PAGE_SIZE) + KERNEL_STACK_SIZE
                + PAGE_SIZE <= TRAMPOLINE,
        ensures
            final(self).wf(),
            r >= 0,
            final(self).live(r as int),
            !old(self).live(r as int),
            r as int != old(self).processor.current->Some_0,
            final(self).processor.current == old(self).processor.current,
            // the child starts ready, queued, with the parent's registers but
            // return value 0, and sees the same user memory
            final(self).task(r as int).inner.task_status == TaskStatus::Ready,
            final(self).task(r as int).inner.trap_cx.x@[10] == 0,
            final(self).task(r as int).inner.trap_cx.sepc == old(self).task(
                old(self).processor.current->Some_0 as int,
            ).inner.trap_cx.sepc,
            final(self).task(r as int).inner.parent == Some(
                old(self).processor.current->Some_0,
            ),
            // the child inherits the parent's descriptors, mask and actions;
            // its pending set starts empty; its registers are the parent's
            // but for the return value and the kernel stack
            final(self).task(r as int).inner.fd_table@ == old(self).task(
                old(self).processor.current->Some_0 as int,
            ).inner.fd_table@,
            final(self).task(r as int).inner.signal_mask == old(self).task(
                old(self).processor.current->Some_0 as int,
            ).inner.signal_mask,
            final(self).task(r as int).inner.signal_actions.table@ == old(self).task(
                old(self).processor.current->Some_0 as int,
            ).inner.signal_actions.table@,
            final(self).task(r as int).inner.signals.bits == 0,
            final(self).task(r as int).inner.trap_cx.x@ == old(self).task(
                old(self).processor.current->Some_0 as int,
            ).inner.trap_cx.x@.update(10, 0usize),
            final(self).task(r as int).inner.trap_cx.sstatus == old(self).task(
                old(self).processor.current->Some_0 as int,
            ).inner.trap_cx.sstatus,
            final(self).task(r as int).inner.trap_cx.kernel_satp == old(self).task(
                old(self).processor.current->Some_0 as int,
            ).inner.trap_cx.kernel_satp,
            final(self).task(r as int).inner.trap_cx.trap_handler == old(self).task(
                old(self).processor.current->Some_0 as int,
            ).inner.trap_cx.trap_handler,
            final(self).task(r as int).inner.trap_cx.kernel_sp == TRAMPOLINE - (r as usize) * (
            KERNEL_STACK_SIZE + PAGE_SIZE) - PAGE_SIZE,
            final(self).task(r as int).inner.base_size == old(self).task(
                old(self).processor.current->Some_0 as int,
            ).inner.base_size,
            final(self).ready_queue@ == old(self).ready_queue@.push(r as usize),
            forall|va: nat|
                #[trigger] final(self).task(r as int).inner.memory_set.byte_at(va) == old(self).task(old(self).processor.current->Some_0 as int).inner.memory_set.byte_at(va),
            // the parent's own state is unchanged but for the recorded child
            final(self).task(old(self).processor.current->Some_0 as int).inner.children@ == old(self).task(old(self).processor.current->Some_0 as int).inner.children@.push(r as usize),
            final(self).task(old(self).processor.current->Some_0 as int).inner.memory_set == old(self).task(old(self).processor.current->Some_0 as int).inner.memory_set,
            final(self).task(old(self).processor.current->Some_0 as int).inner.trap_cx == old(self).task(old(self).processor.current->Some_0 as int).inner.trap_cx,

            // the copied table's write ends are registered on their rings
            final(self).pipes@.len() == old(self).pipes@.len(),
            forall|b: int|
                0 <= b < old(self).pipes@.len() ==> (#[trigger] final(self).pipes@[b]).view()
                    == old(self).pipes@[b].view(),
            forall|b: int|
                0 <= b < old(self).pipes@.len() && old(self).pipes@[b].write_ends
                    + Kernel::table_wcount(
                    old(self).task(old(self).processor.current->Some_0 as int).inner.fd_table@,
                    b,
                    old(self).task(
                        old(self).processor.current->Some_0 as int,
                    ).inner.fd_table@.len() as int,
                ) <= usize::MAX ==> (#[trigger] final(self).pipes@[b]).write_ends == old(self).pipes@[b].write_ends + Kernel::table_wcount(
                    old(self).task(old(self).processor.current->Some_0 as int).inner.fd_table@,
                    b,
                    old(self).task(
                        old(self).processor.current->Some_0 as int,
                    ).inner.fd_table@.len() as int,
                ),
    {
        let c = match self.processor.current {
            Some(c) => c,
            None => {
                proof {
                    assert(false);
                }
                vstd::pervasive::unreached()
            },
        };
        let ghost pre = *self;
        proof {
            assert(pre.task_wf(c as int));
        }
        let mut parent = match self.tasks[c].take() {
            Some(t) => t,
            None => {
                proof {
                    assert(false);
                }
                vstd::pervasive::unreached()
            },
        };
        proof {
            assert(parent == pre.task(c as int));
        }
        let child_ms = MemorySet::from_existed_user(
            &parent.inner.memory_set,
            &mut self.frame_allocator,
        );
        proof {
            assert(self.pid_allocator.current < usize::MAX) by (nonlinear_arith)
                requires
                    self.pid_allocator.current == pre.tasks@.len(),
                    (pre.tasks@.len() + 1) * (KERNEL_STACK_SIZE + PAGE_SIZE) + KERNEL_STACK_SIZE
                        + PAGE_SIZE <= TRAMPOLINE,
                    TRAMPOLINE <= usize::MAX,
                    KERNEL_STACK_SIZE == 8192,
                    PAGE_SIZE == 4096,
            ;
        }
        let pid_handle = self.pid_allocator.allocate();
        let new_pid = pid_handle.0;
        proof {
            assert(new_pid != c) by {
                assert(pre.live(c as int));
                assert(pre.pid_allocator.outstanding().contains(c));
            }
            assert(new_pid != IDLE_PID) by {
                assert(pre.live(IDLE_PID as int));
                assert(pre.pid_allocator.outstanding().contains(IDLE_PID));
            }
            assert(new_pid <= pre.tasks@.len()) by {
                assert(self.pid_allocator.wf());
            }
        }
        let kernel_stack = KernelStack { pid: new_pid };
        proof {
            assert(new_pid * (KERNEL_STACK_SIZE + PAGE_SIZE) + KERNEL_STACK_SIZE + PAGE_SIZE
                <= TRAMPOLINE) by (nonlinear_arith)
                requires
                    new_pid <= pre.tasks@.len(),
                    (pre.tasks@.len() + 1) * (KERNEL_STACK_SIZE + PAGE_SIZE) + KERNEL_STACK_SIZE
                        + PAGE_SIZE <= TRAMPOLINE,
            ;
        }
        let kernel_stack_top = kernel_stack.get_top();
        let mut child_trap_cx = parent.inner.trap_cx;
        child_trap_cx.kernel_sp = kernel_stack_top;
        child_trap_cx.x[10] = 0;
        let child_fd_table = Kernel::copy_fd_table(&parent.inner.fd_table);
        let child = TaskControlBlock {
            pid: pid_handle,
            kernel_stack,
            inner: crate::task::TaskControlBlockInner {
                task_status: TaskStatus::Ready,
                task_cx: TaskContext::goto_trap_return(kernel_stack_top),
                memory_set: child_ms,
                trap_cx_ppn: parent.inner.trap_cx_ppn,
                trap_cx: child_trap_cx,
                base_size: parent.inner.base_size,
                parent: Some(c),
                children: Vec::new(),
                exit_code: 0,
                fd_table: child_fd_table,
                signals: crate::signal::SignalFlags::empty(),
                signal_mask: parent.inner.signal_mask,
                handling_sig: -1,
                signal_actions: parent.inner.signal_actions.duplicate(),
                killed: false,
                frozen: false,
                trap_ctx_backup: None,
            },
        };
        parent.inner.children.push(new_pid);
        self.tasks[c] = Some(parent);
        if new_pid == self.tasks.len() {
            self.tasks.push(Some(child));
        } else {
            self.tasks[new_pid] = Some(child);
        }
        proof {
            let post = *self;
            let ci = c as int;
            let ni = new_pid as int;
            assert(post.live(ni) && post.live(ci));
            assert(post.task(ci).inner.children@ == pre.task(ci).inner.children@.push(new_pid));
            // PIDs and slots still correspond
            assert forall|p: int| 0 <= p < post.tasks@.len() implies (post.live(p)
                <==> post.pid_allocator.outstanding().contains(p as usize)) by {
                if p == ci {
                    assert(post.live(ci) && pre.live(ci));
                    assert(pre.pid_allocator.outstanding().contains(c));
                } else if p != ni && p < pre.tasks@.len() {
                    assert(post.tasks@[p] == pre.tasks@[p]);
                    assert(pre.live(p) <==> pre.pid_allocator.outstanding().contains(p as usize));
                }
            }
            // per-task facts
            assert forall|q: int| post.live(q) implies #[trigger] post.task_wf(q) by {
                if q == ni {
                    post.task(ni).inner.memory_set.lemma_owns_superset(
                        self.frame_allocator,
                        post.frame_allocator,
                    );
                    assert forall|k: int|
                        0 <= k < post.task(ni).inner.children@.len() implies post.live(
                        (#[trigger] post.task(ni).inner.children@[k]) as int,
                    ) by {}
                } else {
                    assert(pre.live(q));
                    assert(pre.task_wf(q));
                    pre.task(q).inner.memory_set.lemma_owns_superset(
                        pre.frame_allocator,
                        post.frame_allocator,
                    );
                    if q == ci {
                        assert forall|k: int|
                            0 <= k < post.task(ci).inner.children@.len() implies post.live(
                            (#[trigger] post.task(ci).inner.children@[k]) as int,
                        ) by {
                            if k < pre.task(ci).inner.children@.len() {
                                assert(pre.live(pre.task(ci).inner.children@[k] as int));
                            }
                        }
                    } else {
                        assert(post.task(q) == pre.task(q));
                        assert forall|k: int|
                            0 <= k < post.task(q).inner.children@.len() implies post.live(
                            (#[trigger] post.task(q).inner.children@[k]) as int,
                        ) by {
                            assert(pre.live(pre.task(q).inner.children@[k] as int));
                        }
                    }
                }
            }
            // no two live spaces share a frame: the child's frames are fresh
            assert forall|p1: int, p2: int, q: usize|
                post.live(p1) && post.live(p2) && p1 != p2 implies !(
            #[trigger] post.task(p1).inner.memory_set.is_frame_of(q)
                && #[trigger] post.task(p2).inner.memory_set.is_frame_of(q)) by {
                if post.task(p1).inner.memory_set.is_frame_of(q) && post.task(
                    p2,
                ).inner.memory_set.is_frame_of(q) {
                    if p1 == ni || p2 == ni {
                        let other = if p1 == ni {
                            p2
                        } else {
                            p1
                        };
                        assert(pre.live(other) && pre.task_wf(other));
                        assert(post.task(other) == pre.task(other));
                        pre.task(other).inner.memory_set.lemma_frames_outstanding(
                            pre.frame_allocator,
                            q,
                        );
                        assert(!pre.frame_allocator.outstanding().contains(q));
                        assert(false);
                    } else {
                        assert(post.task(p1) == pre.task(p1));
                        assert(post.task(p2) == pre.task(p2));
                    }
                }
            }
            // queue and children uniqueness
            assert forall|i: int| 0 <= i < post.ready_queue@.len() implies post.live(
                (#[trigger] post.ready_queue@[i]) as int,
            ) by {
                assert(pre.live(pre.ready_queue@[i] as int));
            }
            assert forall|p1: int, p2: int, i1: int, i2: int|
                post.live(p1) && post.live(p2) && 0 <= i1 < post.task(p1).inner.children@.len()
                    && 0 <= i2 < post.task(p2).inner.children@.len() && (
                #[trigger] post.task(p1).inner.children@[i1]) == (
                #[trigger] post.task(p2).inner.children@[i2]) implies p1 == p2 && i1 == i2 by {
                let v = post.task(p1).inner.children@[i1];
                let new1 = p1 == ci && i1 == pre.task(ci).inner.children@.len();
                let new2 = p2 == ci && i2 == pre.task(ci).inner.children@.len();
                if new1 && !new2 {
                    if p2 == ni {
                    } else {
                        assert(pre.live(p2));
                        assert(pre.task_wf(p2));
                        if p2 == ci {
                            assert(pre.task(ci).inner.children@[i2] == v);
                        } else {
                            assert(post.task(p2) == pre.task(p2));
                        }
                        assert(pre.live(v as int));
                        assert(pre.pid_allocator.outstanding().contains(v));
                        assert(false);
                    }
                } else if !new1 && new2 {
                    if p1 == ni {
                    } else {
                        assert(pre.live(p1));
                        assert(pre.task_wf(p1));
                        if p1 == ci {
                            assert(pre.task(ci).inner.children@[i1] == v);
                        } else {
                            assert(post.task(p1) == pre.task(p1));
                        }
                        assert(pre.live(v as int));
                        assert(pre.pid_allocator.outstanding().contains(v));
                        assert(false);
                    }
                } else if !new1 && !new2 {
                    if p1 == ni || p2 == ni {
                    } else {
                        assert(pre.live(p1) && pre.live(p2));
                        assert(pre.task_wf(p1) && pre.task_wf(p2));
                        if p1 == ci {
                            assert(pre.task(ci).inner.children@[i1] == v);
                        } else {
                            assert(post.task(p1) == pre.task(p1));
                        }
                        if p2 == ci {
                            assert(pre.task(ci).inner.children@[i2] == v);
                        } else {
                            assert(post.task(p2) == pre.task(p2));
                        }
                    }
                }
            }
            assert(post.wf());
        }
        self.add_task(new_pid);
        // the child's copied descriptors each hold their ring's write end
        let fds_snapshot = match self.tasks[new_pid].as_ref() {
            Some(t2) => Kernel::copy_fd_table(&t2.inner.fd_table),
            None => {
                proof {
                    assert(false);
                }
                vstd::pervasive::unreached()
            },
        };
        proof {
            assert(self.task_wf(new_pid as int));
            assert(fds_snapshot@ == pre.task(c as int).inner.fd_table@);
        }
        self.register_table_write_ends(&fds_snapshot);
        proof {
            assert(new_pid < usize::MAX / 2) by (nonlinear_arith)
                requires
                    new_pid <= pre.tasks@.len(),
                    (pre.tasks@.len() + 1) * (KERNEL_STACK_SIZE + PAGE_SIZE) + KERNEL_STACK_SIZE
                        + PAGE_SIZE <= TRAMPOLINE,
                    TRAMPOLINE <= usize::MAX,
                    KERNEL_STACK_SIZE == 8192,
                    PAGE_SIZE == 4096,
                    usize::MAX >= 0xFFFF,
            ;
        }
        new_pid as isize
    }

    /// End the running task: it becomes a zombie holding `exit_code`, its
    /// children are adopted by the init process, and its user data pages go
    /// back to the frame pool. The control block stays for `waitpid`.
    pub fn exit_current_and_run_next(&mut self, exit_code: i32)
        requires
            old(self).wf(),
            old(self).processor.current is Some,
            old(self).processor.current->Some_0 != IDLE_PID,
            old(self).live(IDLE_PID as int),
        ensures
            final(self).wf(),
            final(self).processor.current is None,
            final(self).live(old(self).processor.current->Some_0 as int),
            final(self).task(old(self).processor.current->Some_0 as int).inner.task_status
                == TaskStatus::Zombie,
            final(self).task(old(self).processor.current->Some_0 as int).inner.exit_code
                == exit_code,
            final(self).task(
                old(self).processor.current->Some_0 as int,
            ).inner.children@.len() == 0,
            final(self).task(
                old(self).processor.current->Some_0 as int,
            ).inner.memory_set.areas@.len() == 0,
            // every child of the dying task now reports to init
            forall|k: int|
                0 <= k < old(self).task(
                    old(self).processor.current->Some_0 as int,
                ).inner.children@.len() ==> final(self).task(
                    (#[trigger] old(self).task(
                        old(self).processor.current->Some_0 as int,
                    ).inner.children@[k]) as int,
                ).inner.parent == Some(IDLE_PID),
    {
        let c = match self.take_current_task() {
            Some(c) => c,
            None => {
                proof {
                    assert(false);
                }
                vstd::pervasive::unreached()
            },
        };
        let ghost pre = *self;
        proof {
            assert(pre.task_wf(c as int));
            assert(pre.task_wf(IDLE_PID as int));
        }
        let mut t = match self.tasks[c].take() {
            Some(t) => t,
            None => {
                proof {
                    assert(false);
                }
                vstd::pervasive::unreached()
            },
        };
        t.inner.task_status = TaskStatus::Zombie;
        t.inner.exit_code = exit_code;
        // reparent the children to init
        let mut init = match self.tasks[IDLE_PID].take() {
            Some(t) => t,
            None => {
                proof {
                    assert(false);
                }
                vstd::pervasive::unreached()
            },
        };
        let ghost pre_children = t.inner.children@;
        let ghost pre_init_children = init.inner.children@;
        let n = t.inner.children.len();
        let mut k: usize = 0;
        while k < n
            invariant
                pre.wf(),
                pre.live(c as int),
                pre.live(IDLE_PID as int),
                c != IDLE_PID,
                n == pre_children.len(),
                k <= n,
                t.inner.children@ == pre_children,
                pre_children == pre.task(c as int).inner.children@,
                init.inner.children@ == pre_init_children + pre_children.take(k as int),
                pre_init_children == pre.task(IDLE_PID as int).inner.children@,
                init.pid == pre.task(IDLE_PID as int).pid,
                init.kernel_stack == pre.task(IDLE_PID as int).kernel_stack,
                init.inner.memory_set == pre.task(IDLE_PID as int).inner.memory_set,
                init.inner.fd_table == pre.task(IDLE_PID as int).inner.fd_table,
                init.inner.parent == pre.task(IDLE_PID as int).inner.parent,
                init.inner.signal_actions == pre.task(IDLE_PID as int).inner.signal_actions,
                init.inner.task_status == pre.task(IDLE_PID as int).inner.task_status,
                init.inner.handling_sig == pre.task(IDLE_PID as int).inner.handling_sig,
                self.tasks@.len() == pre.tasks@.len(),
                self.frame_allocator == pre.frame_allocator,
                self.pid_allocator == pre.pid_allocator,
                self.pipes == pre.pipes,
                self.ready_queue == pre.ready_queue,
                self.processor == pre.processor,
                self.tasks@[c as int] is None,
                self.tasks@[IDLE_PID as int] is None,
                forall|q: int|
                    0 <= q < pre.tasks@.len() && q != c as int && q != IDLE_PID as int
                        ==> #[trigger] self.tasks@[q] is Some == pre.tasks@[q] is Some,
                // untouched tasks keep their whole state; reparented ones only
                // change their parent field
                forall|q: int|
                    0 <= q < pre.tasks@.len() && q != c as int && q != IDLE_PID as int
                        && self.tasks@[q] is Some ==> {
                        let nt = #[trigger] self.tasks@[q]->Some_0;
                        let ot = pre.tasks@[q]->Some_0;
                        &&& nt.pid == ot.pid
                        &&& nt.kernel_stack == ot.kernel_stack
                        &&& nt.inner.memory_set == ot.inner.memory_set
                        &&& nt.inner.fd_table == ot.inner.fd_table
                        &&& nt.inner.children == ot.inner.children
                        &&& nt.inner.signal_actions == ot.inner.signal_actions
                        &&& nt.inner.task_status == ot.inner.task_status
                        &&& nt.inner.handling_sig == ot.inner.handling_sig
                        &&& (nt.inner.parent == ot.inner.parent || nt.inner.parent == Some(
                            IDLE_PID,
                        ))
                    },
                forall|j: int|
                    0 <= j < k ==> self.tasks@[(#[trigger] pre_children[j]) as int] is Some
                        && self.tasks@[pre_children[j] as int]->Some_0.inner.parent == Some(
                        IDLE_PID,
                    ),
            decreases n - k,
        {
            let ch = t.inner.children[k];
            proof {
                assert(pre.task_wf(c as int));
                assert(pre_children[k as int] == ch);
                assert(pre.live(ch as int));
                assert(ch != c && ch != IDLE_PID);
                assert forall|j: int| 0 <= j < k implies (#[trigger] pre_children[j]) != ch by {
                    assert(pre.task(c as int).inner.children@[j] == pre_children[j]);
                    assert(pre.task(c as int).inner.children@[k as int] == ch);
                }
            }
            let mut chd = match self.tasks[ch].take() {
                Some(t2) => t2,
                None => {
                    proof {
                        assert(false);
                    }
                    vstd::pervasive::unreached()
                },
            };
            chd.inner.parent = Some(IDLE_PID);
            self.tasks[ch] = Some(chd);
            init.inner.children.push(ch);
            proof {
                assert(init.inner.children@ =~= pre_init_children + pre_children.take(
                    k as int + 1,
                ));
            }
            k = k + 1;
        }
        t.inner.children = Vec::new();
        // the zombie keeps its table but gives back all its data pages
        t.inner.memory_set.recycle_data_pages(&mut self.frame_allocator);
        self.tasks[IDLE_PID] = Some(init);
        self.tasks[c] = Some(t);
        proof {
            let post = *self;
            let ci = c as int;
            assert(pre_children.take(n as int) =~= pre_children);
            assert forall|p: int| 0 <= p < post.tasks@.len() implies (post.live(p)
                <==> post.pid_allocator.outstanding().contains(p as usize)) by {
                assert(pre.live(p) <==> pre.pid_allocator.outstanding().contains(p as usize));
                if p != ci && p != IDLE_PID as int {
                    assert(post.tasks@[p] is Some == pre.tasks@[p] is Some);
                }
            }
            assert forall|q: int| post.live(q) implies #[trigger] post.task_wf(q) by {
                assert(pre.live(q) && pre.task_wf(q));
                if q == ci {
                } else if q == IDLE_PID as int {
                    // init keeps its space; its new children are live
                    assert forall|q2: usize|
                        !(pre.task(q).inner.memory_set.is_frame_of(q2) && pre.task(
                            ci,
                        ).inner.memory_set.is_frame_of(q2)) by {}
                    pre.task(q).inner.memory_set.lemma_owns_preserved_after_recycle(
                        pre.frame_allocator,
                        post.frame_allocator,
                        pre.task(ci).inner.memory_set,
                    );
                    assert forall|k2: int|
                        0 <= k2 < post.task(q).inner.children@.len() implies post.live(
                        (#[trigger] post.task(q).inner.children@[k2]) as int,
                    ) by {
                        if k2 < pre_init_children.len() {
                            assert(post.task(q).inner.children@[k2] == pre_init_children[k2]);
                            assert(pre.live(pre_init_children[k2] as int));
                        } else {
                            assert(post.task(q).inner.children@[k2] == pre_children[k2
                                - pre_init_children.len()]);
                            assert(pre.live(
                                pre_children[k2 - pre_init_children.len()] as int,
                            ));
                        }
                    }
                    assert forall|k2: int|
                        0 <= k2 < post.task(q).inner.children@.len() implies (
                    #[trigger] post.task(q).inner.children@[k2]) != IDLE_PID && post.task(
                        q,
                    ).inner.children@[k2] != q by {
                        if k2 < pre_init_children.len() {
                            assert(post.task(q).inner.children@[k2] == pre_init_children[k2]);
                        } else {
                            assert(post.task(q).inner.children@[k2] == pre_children[k2
                                - pre_init_children.len()]);
                        }
                    }
                } else {
                    assert(post.task(q).inner.memory_set == pre.task(q).inner.memory_set);
                    assert(post.task(q).inner.fd_table == pre.task(q).inner.fd_table);
                    assert(post.task(q).inner.children == pre.task(q).inner.children);
                    assert(post.task(q).inner.signal_actions == pre.task(q).inner.signal_actions);
                    assert(post.task(q).pid == pre.task(q).pid);
                    assert(post.task(q).kernel_stack == pre.task(q).kernel_stack);
                    assert forall|q2: usize|
                        !(pre.task(q).inner.memory_set.is_frame_of(q2) && pre.task(
                            ci,
                        ).inner.memory_set.is_frame_of(q2)) by {}
                    pre.task(q).inner.memory_set.lemma_owns_preserved_after_recycle(
                        pre.frame_allocator,
                        post.frame_allocator,
                        pre.task(ci).inner.memory_set,
                    );
                    assert forall|k2: int|
                        0 <= k2 < post.task(q).inner.children@.len() implies post.live(
                        (#[trigger] post.task(q).inner.children@[k2]) as int,
                    ) by {
                        assert(post.task(q).inner.children@[k2] == pre.task(
                            q,
                        ).inner.children@[k2]);
                        assert(pre.live(pre.task(q).inner.children@[k2] as int));
                    }
                }
            }
            assert forall|p1: int, p2: int, q: usize|
                post.live(p1) && post.live(p2) && p1 != p2 implies !(
            #[trigger] post.task(p1).inner.memory_set.is_frame_of(q)
                && #[trigger] post.task(p2).inner.memory_set.is_frame_of(q)) by {
                if post.task(p1).inner.memory_set.is_frame_of(q) && post.task(
                    p2,
                ).inner.memory_set.is_frame_of(q) {
                    assert(post.task(p1).inner.memory_set.is_frame_of(q) ==> pre.task(
                        p1,
                    ).inner.memory_set.is_frame_of(q)) by {
                        if p1 == ci {
                            Kernel::lemma_recycle_shrinks_frames(
                                pre.task(ci).inner.memory_set,
                                post.task(ci).inner.memory_set,
                                q,
                            );
                        } else {
                            assert(post.task(p1).inner.memory_set == pre.task(
                                p1,
                            ).inner.memory_set);
                        }
                    }
                    assert(post.task(p2).inner.memory_set.is_frame_of(q) ==> pre.task(
                        p2,
                    ).inner.memory_set.is_frame_of(q)) by {
                        if p2 == ci {
                            Kernel::lemma_recycle_shrinks_frames(
                                pre.task(ci).inner.memory_set,
                                post.task(ci).inner.memory_set,
                                q,
                            );
                        } else {
                            assert(post.task(p2).inner.memory_set == pre.task(
                                p2,
                            ).inner.memory_set);
                        }
                    }
                }
            }
            assert forall|i: int| 0 <= i < post.ready_queue@.len() implies post.live(
                (#[trigger] post.ready_queue@[i]) as int,
            ) && post.task(post.ready_queue@[i] as int).inner.task_status == TaskStatus::Ready by {
                let q = pre.ready_queue@[i] as int;
                assert(pre.live(q));
                assert(pre.task(q).inner.task_status == TaskStatus::Ready);
                assert(q != ci);
            }
            // children uniqueness: the dying list moved wholesale to init
            assert forall|p1: int, p2: int, i1: int, i2: int|
                post.live(p1) && post.live(p2) && 0 <= i1 < post.task(p1).inner.children@.len()
                    && 0 <= i2 < post.task(p2).inner.children@.len() && (
                #[trigger] post.task(p1).inner.children@[i1]) == (
                #[trigger] post.task(p2).inner.children@[i2]) implies p1 == p2 && i1 == i2 by {
                let src1 = Kernel::exit_entry_source(
                    pre,
                    ci,
                    pre_init_children.len() as int,
                    p1,
                    i1,
                );
                let src2 = Kernel::exit_entry_source(
                    pre,
                    ci,
                    pre_init_children.len() as int,
                    p2,
                    i2,
                );
                assert(post.task(p1).inner.children@[i1] == pre.task(
                    src1.0,
                ).inner.children@[src1.1]) by {
                    if p1 == IDLE_PID as int && i1 >= pre_init_children.len() {
                        assert(post.task(p1).inner.children@[i1] == pre_children[i1
                            - pre_init_children.len()]);
                    } else if p1 != ci {
                        assert(post.task(p1).inner.children@[i1] == pre.task(
                            p1,
                        ).inner.children@[i1]);
                    }
                }
                assert(post.task(p2).inner.children@[i2] == pre.task(
                    src2.0,
                ).inner.children@[src2.1]) by {
                    if p2 == IDLE_PID as int && i2 >= pre_init_children.len() {
                        assert(post.task(p2).inner.children@[i2] == pre_children[i2
                            - pre_init_children.len()]);
                    } else if p2 != ci {
                        assert(post.task(p2).inner.children@[i2] == pre.task(
                            p2,
                        ).inner.children@[i2]);
                    }
                }
                assert(src1 == src2);
            }
            assert(post.wf());
            assert forall|k2: int| 0 <= k2 < pre_children.len() implies post.task(
                (#[trigger] pre_children[k2]) as int,
            ).inner.parent == Some(IDLE_PID) by {
                assert(pre_children[k2] != c && pre_children[k2] != IDLE_PID);
            }
        }
    }

    /// Whether position `i` of `t`'s children list matches the `waitpid`
    /// argument: any child for -1, else the child with that PID.
    pub open spec fn child_matches(t: TaskControlBlock, i: int, pid: isize) -> bool {
        0 <= i < t.inner.children@.len() && (pid == -1 || t.inner.children@[i] == pid as usize)
    }

    /// Byte `k` of the little-endian image of an exit code.
    pub open spec fn i32_le_byte(v: i32, k: int) -> u8 {
        (((v as u32) >> (8 * k) as u32) & 0xFF) as u8
    }

    /// What `sys_waitpid` returns and does, over the states before and after:
    /// -1 exactly when no child matches; -2 exactly when one matches but none
    /// has exited; otherwise the reaped zombie's PID — that child unlinked
    /// from the caller's list, its slot freed, its PID recycled, and its exit
    /// code written little-endian where `ptr` points in the caller's space.
    pub open spec fn waitpid_result_spec(
        pre: Kernel,
        post: Kernel,
        pid: isize,
        ptr: usize,
        r: isize,
    ) -> bool {
        let c = pre.processor.current->Some_0 as int;
        let t = pre.task(c);
        &&& post.processor.current == pre.processor.current
        &&& ((r == -1) <==> !(exists|i: int| Kernel::child_matches(t, i, pid)))
        &&& ((r == -2) <==> ((exists|i: int| Kernel::child_matches(t, i, pid)) && !(exists|i: int|
            Kernel::child_matches(t, i, pid) && pre.task(
                t.inner.children@[i] as int,
            ).inner.task_status == TaskStatus::Zombie)))
        &&& (r >= 0 ==> {
            &&& (exists|i: int|
                Kernel::child_matches(t, i, pid) && t.inner.children@[i] == r as usize
                    && post.task(c).inner.children@ == t.inner.children@.remove(i))
            &&& pre.task(r as int).inner.task_status == TaskStatus::Zombie
            &&& !post.live(r as int)
            &&& post.pid_allocator.outstanding() == pre.pid_allocator.outstanding().remove(
                r as usize,
            )
            &&& ((forall|j: int|
                0 <= j < 4 ==> #[trigger] t.inner.memory_set.byte_at((ptr + j) as nat) is Some)
                ==> (forall|j: int|
                0 <= j < 4 ==> #[trigger] post.task(c).inner.memory_set.byte_at((ptr + j) as nat)
                    == Some(Kernel::i32_le_byte(pre.task(r as int).inner.exit_code, j))))
        })
    }

    /// Reap one zombie child. Returns -1 when no child matches `pid`; -2 when
    /// one matches but none has exited — the caller yields and retries; else
    /// the PID of the reaped child, whose exit code lands (little-endian)
    /// where `exit_code_ptr` points in the caller's space, whose control
    /// block is freed, and whose PID becomes available again.
    #[verifier::rlimit(100)]
    #[verifier::spinoff_prover]
    pub fn sys_waitpid(&mut self, pid: isize, exit_code_ptr: usize) -> (r: isize)
        requires
            old(self).wf(),
            old(self).processor.current is Some,
            exit_code_ptr + 4 <= usize::MAX,
            // where a reap will happen, the exit-code pointer must be mapped:
            // an unmapped pointer halts the kernel instead
            (exists|i: int|
                Kernel::child_matches(
                    old(self).task(old(self).processor.current->Some_0 as int),
                    i,
                    pid,
                ) && old(self).task(
                    old(self).task(
                        old(self).processor.current->Some_0 as int,
                    ).inner.children@[i] as int,
                ).inner.task_status == TaskStatus::Zombie) ==> forall|j: int|
                0 <= j < 4 ==> #[trigger] old(self).task(
                    old(self).processor.current->Some_0 as int,
                ).inner.memory_set.byte_at((exit_code_ptr + j) as nat) is Some,
        ensures
            final(self).wf(),
            r == -1 || r == -2 || r >= 0,
            Kernel::waitpid_result_spec(*old(self), *final(self), pid, exit_code_ptr, r),
    {
        let c = match self.processor.current {
            Some(c) => c,
            None => {
                proof {
                    assert(false);
                }
                vstd::pervasive::unreached()
            },
        };
        let ghost pre = *self;
        proof {
            assert(pre.task_wf(c as int));
        }
        let n = match self.tasks[c].as_ref() {
            Some(t) => t.inner.children.len(),
            None => {
                proof {
                    assert(false);
                }
                vstd::pervasive::unreached()
            },
        };
        // is there any matching child at all?
        let mut any_match = false;
        let mut i: usize = 0;
        while i < n
            invariant
                i <= n,
                *self == pre,
                pre == *old(self),
                pre.wf(),
                pre.live(c as int),
                pre.processor.current == Some(c),
                n == pre.task(c as int).inner.children@.len(),
                any_match == (exists|j: int|
                    0 <= j < i && Kernel::child_matches(pre.task(c as int), j, pid)),
            decreases n - i,
        {
            let chv = match self.tasks[c].as_ref() {
                Some(t) => t.inner.children[i],
                None => {
                    proof {
                        assert(false);
                    }
                    vstd::pervasive::unreached()
                },
            };
            if pid == -1 || chv == pid as usize {
                any_match = true;
                proof {
                    assert(Kernel::child_matches(pre.task(c as int), i as int, pid));
                }
            }
            i = i + 1;
        }
        if !any_match {
            proof {
                assert(self.wf());
                assert(Kernel::waitpid_result_spec(pre, *self, pid, exit_code_ptr, -1isize));
            }
            return -1;
        }
        // find the first matching zombie
        let mut i: usize = 0;
        while i < n
            invariant
                i <= n,
                *self == pre,
                pre == *old(self),
                pre.wf(),
                pre.live(c as int),
                pre.processor.current == Some(c),
                n == pre.task(c as int).inner.children@.len(),
                exit_code_ptr + 4 <= usize::MAX,
                exists|j: int| Kernel::child_matches(pre.task(c as int), j, pid),
                forall|j: int|
                    0 <= j < i ==> !(Kernel::child_matches(pre.task(c as int), j, pid) && pre.task(
                        (#[trigger] pre.task(c as int).inner.children@[j]) as int,
                    ).inner.task_status == TaskStatus::Zombie),
            decreases n - i,
        {
            let ch = match self.tasks[c].as_ref() {
                Some(t) => t.inner.children[i],
                None => {
                    proof {
                        assert(false);
                    }
                    vstd::pervasive::unreached()
                },
            };
            let matches = pid == -1 || ch == pid as usize;
            if matches {
                proof {
                    assert(pre.task_wf(c as int));
                    assert(pre.live(ch as int));
                    assert(ch != c);
                }
                let zombie = match self.tasks[ch].as_ref() {
                    Some(t) => t.inner.is_zombie(),
                    None => {
                        proof {
                            assert(false);
                        }
                        vstd::pervasive::unreached()
                    },
                };
                if zombie {
                    let ghost pre_children2 = pre.task(c as int).inner.children@;
                    let chv = self.reap_child(c, i, exit_code_ptr);
                    proof {
                        assert(chv == ch);
                        assert(Kernel::child_matches(pre.task(c as int), i as int, pid));
                        assert(Kernel::waitpid_result_spec(
                            pre,
                            *self,
                            pid,
                            exit_code_ptr,
                            chv as isize,
                        )) by {
                            assert(exists|j: int|
                                Kernel::child_matches(pre.task(c as int), j, pid) && pre.task(
                                    pre.task(c as int).inner.children@[j] as int,
                                ).inner.task_status == TaskStatus::Zombie);
                            assert(exists|j: int|
                                Kernel::child_matches(pre.task(c as int), j, pid) && pre.task(
                                    c as int,
                                ).inner.children@[j] == chv && self.task(
                                    c as int,
                                ).inner.children@ == pre.task(c as int).inner.children@.remove(j));
                        }
                    }
                    return chv as isize;
                }
            }
            proof {
                if Kernel::child_matches(pre.task(c as int), i as int, pid) {
                    assert(pre.task(
                        pre.task(c as int).inner.children@[i as int] as int,
                    ).inner.task_status != TaskStatus::Zombie);
                }
            }
            i = i + 1;
        }
        proof {
            assert forall|j: int|
                !(Kernel::child_matches(pre.task(c as int), j, pid) && pre.task(
                    (#[trigger] pre.task(c as int).inner.children@[j]) as int,
                ).inner.task_status == TaskStatus::Zombie) by {
                if Kernel::child_matches(pre.task(c as int), j, pid) {
                    assert(0 <= j < n);
                }
            }
            assert(Kernel::waitpid_result_spec(pre, *self, pid, exit_code_ptr, -2isize));
        }
        -2
    }


    /// Reap the zombie at position `i` of the running task's children list:
    /// unlink it, free its control block and address space, recycle its PID,
    /// and deliver its exit code little-endian at `exit_code_ptr` in the
    /// caller's space (a silently unmapped pointer loses the write, as the
    /// result spec says).
    #[verifier::rlimit(100)]
    #[verifier::spinoff_prover]
    fn reap_child(&mut self, c: usize, i: usize, exit_code_ptr: usize) -> (ch: usize)
        requires
            old(self).wf(),
            old(self).processor.current == Some(c),
            old(self).live(c as int),
            i < old(self).task(c as int).inner.children@.len(),
            old(self).task(
                old(self).task(c as int).inner.children@[i as int] as int,
            ).inner.task_status == TaskStatus::Zombie,
            exit_code_ptr + 4 <= usize::MAX,
        ensures
            final(self).wf(),
            ch == old(self).task(c as int).inner.children@[i as int],
            ch < usize::MAX / 2,
            final(self).processor.current == old(self).processor.current,
            // the dead task's write ends leave their rings
            final(self).pipes@.len() == old(self).pipes@.len(),
            forall|b: int|
                0 <= b < old(self).pipes@.len() ==> (#[trigger] final(self).pipes@[b]).view()
                    == old(self).pipes@[b].view(),
            forall|b: int|
                0 <= b < old(self).pipes@.len() && old(self).pipes@[b].write_ends
                    >= Kernel::table_wcount(
                    old(self).task(
                        old(self).task(c as int).inner.children@[i as int] as int,
                    ).inner.fd_table@,
                    b,
                    old(self).task(
                        old(self).task(c as int).inner.children@[i as int] as int,
                    ).inner.fd_table@.len() as int,
                ) ==> (#[trigger] final(self).pipes@[b]).write_ends == old(self).pipes@[b].write_ends - Kernel::table_wcount(
                    old(self).task(
                        old(self).task(c as int).inner.children@[i as int] as int,
                    ).inner.fd_table@,
                    b,
                    old(self).task(
                        old(self).task(c as int).inner.children@[i as int] as int,
                    ).inner.fd_table@.len() as int,
                ),
            !final(self).live(ch as int),
            final(self).task(c as int).inner.children@ == old(self).task(
                c as int,
            ).inner.children@.remove(i as int),
            final(self).pid_allocator.outstanding() == old(self).pid_allocator.outstanding().remove(
                ch,
            ),
            (forall|j: int|
                0 <= j < 4 ==> #[trigger] old(self).task(c as int).inner.memory_set.byte_at(
                    (exit_code_ptr + j) as nat,
                ) is Some) ==> (forall|j: int|
                0 <= j < 4 ==> #[trigger] final(self).task(c as int).inner.memory_set.byte_at(
                    (exit_code_ptr + j) as nat,
                ) == Some(
                    Kernel::i32_le_byte(old(self).task(ch as int).inner.exit_code, j),
                )),
    {
        let ghost pre = *old(self);
        let ch = match self.tasks[c].as_ref() {
            Some(t) => t.inner.children[i],
            None => {
                proof {
                    assert(false);
                }
                vstd::pervasive::unreached()
            },
        };
        proof {
            assert(pre.task_wf(c as int));
            assert(pre.live(ch as int));
            assert(ch != c);
        }
        let mut cur = match self.tasks[c].take() {
            Some(t) => t,
            None => {
                proof {
                    assert(false);
                }
                vstd::pervasive::unreached()
            },
        };
        proof {
            assert(cur == pre.task(c as int));
        }
        cur.inner.children.remove(i);
        let dead = match self.tasks[ch].take() {
            Some(t) => t,
            None => {
                proof {
                    assert(false);
                }
                vstd::pervasive::unreached()
            },
        };
        let exit_code = dead.inner.exit_code;
        let dead_fds = Kernel::copy_fd_table(&dead.inner.fd_table);
        proof {
            assert(pre.task_wf(ch as int));
            assert(dead == pre.task(ch as int));
            assert(dead_fds@ == pre.task(ch as int).inner.fd_table@);
            assert forall|q2: usize|
                !(pre.task(c as int).inner.memory_set.is_frame_of(q2) && pre.task(
                    ch as int,
                ).inner.memory_set.is_frame_of(q2)) by {}
        }
        dead.inner.memory_set.release(&mut self.frame_allocator);
        proof {
            assert(pre.pid_allocator.outstanding().contains(ch));
        }
        self.pid_allocator.dealloc(ch);
        // deliver the exit code through the caller's space
        let u: u32 = exit_code as u32;
        proof {
            let uu = u;
            assert((uu & 0xFFu32) < 256 && ((uu >> 8u32) & 0xFFu32) < 256 && ((uu
                >> 16u32) & 0xFFu32) < 256 && ((uu >> 24u32) & 0xFFu32) < 256)
                by (bit_vector);
            assert(((uu >> 0u32) & 0xFFu32) == (uu & 0xFFu32)) by (bit_vector);
        }
        let mut ec_bytes: Vec<u8> = Vec::new();
        ec_bytes.push((u & 0xFF) as u8);
        ec_bytes.push(((u >> 8u32) & 0xFF) as u8);
        ec_bytes.push(((u >> 16u32) & 0xFF) as u8);
        ec_bytes.push(((u >> 24u32) & 0xFF) as u8);
        proof {
            let uu = u;
            assert forall|j: int| 0 <= j < 4 implies ec_bytes@[j]
                == Kernel::i32_le_byte(exit_code, j) by {
                assert(((uu >> 0u32) & 0xFFu32) == (uu & 0xFFu32)) by (bit_vector);
            }
        }
        let ghost pre_ms = pre.task(c as int).inner.memory_set;
        let _ok = cur.inner.memory_set.write_bytes(exit_code_ptr, &ec_bytes);
        self.tasks[c] = Some(cur);
        proof {
            let post = *self;
            let ci = c as int;
            let chi = ch as int;
            assert(crate::memory_set::same_structure(
                pre_ms,
                post.task(ci).inner.memory_set,
            ));
            assert forall|p: int| 0 <= p < post.tasks@.len() implies (post.live(p)
                <==> post.pid_allocator.outstanding().contains(p as usize)) by {
                assert(pre.live(p) <==> pre.pid_allocator.outstanding().contains(
                    p as usize,
                ));
                if p != ci && p != chi {
                    assert(post.tasks@[p] == pre.tasks@[p]);
                }
            }
            assert forall|q: int| post.live(q) implies #[trigger] post.task_wf(q) by {
                assert(pre.live(q) && pre.task_wf(q));
                assert(q != chi);
                assert forall|q2: usize|
                    !(pre.task(q).inner.memory_set.is_frame_of(q2) && pre.task(
                        chi,
                    ).inner.memory_set.is_frame_of(q2)) by {}
                pre.task(q).inner.memory_set.lemma_owns_preserved_after_release(
                    pre.frame_allocator,
                    post.frame_allocator,
                    pre.task(chi).inner.memory_set,
                );
                if q == ci {
                    crate::memory_set::lemma_same_structure_owns(
                        pre_ms,
                        post.task(ci).inner.memory_set,
                        post.frame_allocator,
                    );
                    assert forall|k2: int|
                        0 <= k2 < post.task(ci).inner.children@.len() implies post.live(
                        (#[trigger] post.task(ci).inner.children@[k2]) as int,
                    ) by {
                        let ok2 = if k2 < i as int {
                            k2
                        } else {
                            k2 + 1
                        };
                        assert(post.task(ci).inner.children@[k2] == pre.task(
                            ci,
                        ).inner.children@[ok2]);
                        assert(pre.live(pre.task(ci).inner.children@[ok2] as int));
                        assert(pre.task(ci).inner.children@[ok2] != ch) by {
                            if pre.task(ci).inner.children@[ok2] == ch {
                                assert(pre.task(ci).inner.children@[i as int] == ch);
                            }
                        }
                    }
                    assert forall|k2: int|
                        0 <= k2 < post.task(ci).inner.children@.len() implies (
                    #[trigger] post.task(ci).inner.children@[k2]) != IDLE_PID
                        && post.task(ci).inner.children@[k2] != ci by {
                        let ok2 = if k2 < i as int {
                            k2
                        } else {
                            k2 + 1
                        };
                        assert(post.task(ci).inner.children@[k2] == pre.task(
                            ci,
                        ).inner.children@[ok2]);
                    }
                } else {
                    assert(post.task(q) == pre.task(q));
                    assert forall|k2: int|
                        0 <= k2 < post.task(q).inner.children@.len() implies post.live(
                        (#[trigger] post.task(q).inner.children@[k2]) as int,
                    ) by {
                        assert(post.task(q).inner.children@[k2] == pre.task(
                            q,
                        ).inner.children@[k2]);
                        assert(pre.live(pre.task(q).inner.children@[k2] as int));
                        assert(pre.task(q).inner.children@[k2] != ch) by {
                            if pre.task(q).inner.children@[k2] == ch {
                                assert(pre.task(ci).inner.children@[i as int] == ch);
                            }
                        }
                    }
                }
            }
            assert forall|p1: int, p2: int, q: usize|
                post.live(p1) && post.live(p2) && p1 != p2 implies !(
            #[trigger] post.task(p1).inner.memory_set.is_frame_of(q)
                && #[trigger] post.task(p2).inner.memory_set.is_frame_of(q)) by {
                if post.task(p1).inner.memory_set.is_frame_of(q) && post.task(
                    p2,
                ).inner.memory_set.is_frame_of(q) {
                    if p1 == ci {
                        crate::memory_set::MemorySet::lemma_same_structure_frames(
                            pre_ms,
                            post.task(ci).inner.memory_set,
                            q,
                        );
                    } else {
                        assert(post.task(p1) == pre.task(p1));
                    }
                    if p2 == ci {
                        crate::memory_set::MemorySet::lemma_same_structure_frames(
                            pre_ms,
                            post.task(ci).inner.memory_set,
                            q,
                        );
                    } else {
                        assert(post.task(p2) == pre.task(p2));
                    }
                }
            }
            assert forall|i2: int| 0 <= i2 < post.ready_queue@.len() implies post.live(
                (#[trigger] post.ready_queue@[i2]) as int,
            ) by {
                assert(pre.live(pre.ready_queue@[i2] as int));
                assert(pre.ready_queue@[i2] != ch) by {
                    if pre.ready_queue@[i2] == ch {
                        assert(pre.live(chi));
                    }
                }
            }
            assert forall|p1: int, p2: int, i1: int, i2: int|
                post.live(p1) && post.live(p2) && 0 <= i1 < post.task(
                    p1,
                ).inner.children@.len() && 0 <= i2 < post.task(
                    p2,
                ).inner.children@.len() && (
                #[trigger] post.task(p1).inner.children@[i1]) == (
                #[trigger] post.task(p2).inner.children@[i2]) implies p1 == p2 && i1
                == i2 by {
                let oi1 = if p1 == ci && i1 >= i as int {
                    i1 + 1
                } else {
                    i1
                };
                let oi2 = if p2 == ci && i2 >= i as int {
                    i2 + 1
                } else {
                    i2
                };
                assert(post.task(p1).inner.children@[i1] == pre.task(
                    p1,
                ).inner.children@[oi1]) by {
                    if p1 != ci {
                        assert(post.task(p1) == pre.task(p1));
                    }
                }
                assert(post.task(p2).inner.children@[i2] == pre.task(
                    p2,
                ).inner.children@[oi2]) by {
                    if p2 != ci {
                        assert(post.task(p2) == pre.task(p2));
                    }
                }
            }
            assert(post.wf());
            assert(pre.task(ci).inner.children@[i as int] == ch);
            assert(pre.task(chi).inner.task_status == TaskStatus::Zombie);
            assert(!post.live(chi));
            assert(post.task(ci).inner.children@ == pre.task(
                ci,
            ).inner.children@.remove(i as int));
            assert(post.pid_allocator.outstanding() =~= pre.pid_allocator.outstanding().remove(
                ch,
            ));
            assert((forall|j: int|
                0 <= j < 4 ==> #[trigger] pre.task(ci).inner.memory_set.byte_at(
                    (exit_code_ptr + j) as nat,
                ) is Some) ==> (forall|j: int|
                0 <= j < 4 ==> #[trigger] post.task(ci).inner.memory_set.byte_at(
                    (exit_code_ptr + j) as nat,
                ) == Some(Kernel::i32_le_byte(exit_code, j)))) by {
                if forall|j: int|
                    0 <= j < 4 ==> #[trigger] pre.task(ci).inner.memory_set.byte_at(
                        (exit_code_ptr + j) as nat,
                    ) is Some {
                    assert(_ok);
                }
            }
        }
        proof {
            assert(self.processor.current == pre.processor.current);
            assert(ch < usize::MAX / 2) by (nonlinear_arith)
                requires
                    ch < pre.tasks@.len(),
                    pre.tasks@.len() * (KERNEL_STACK_SIZE + PAGE_SIZE)
                        + KERNEL_STACK_SIZE + PAGE_SIZE <= TRAMPOLINE,
                    TRAMPOLINE <= usize::MAX,
                    KERNEL_STACK_SIZE == 8192,
                    PAGE_SIZE == 4096,
                    usize::MAX >= 0xFFFF,
            ;
        }
        self.drop_table_write_ends(&dead_fds);
        ch
    }

    /// Frames a deep copy of the running task's space will take: the clone
    /// budget `sys_fork` requires. Nothing comes back when the sum leaves the
    /// range the caller could ever satisfy.
    fn current_clone_cost(&self) -> (r: Option<u64>)
        requires
            self.wf(),
            self.processor.current is Some,
        ensures
            r is Some ==> r->Some_0 == 3 + crate::memory_set::areas_cost_from(
                self.task(self.processor.current->Some_0 as int).inner.memory_set.areas@,
                0,
            ),
    {
        let c = match self.processor.current {
            Some(c) => c,
            None => {
                proof {
                    assert(false);
                }
                vstd::pervasive::unreached()
            },
        };
        let t = match self.tasks[c].as_ref() {
            Some(t) => t,
            None => {
                proof {
                    assert(false);
                }
                vstd::pervasive::unreached()
            },
        };
        proof {
            assert(self.task_wf(c as int));
        }
        let ghost areas = t.inner.memory_set.areas@;
        let n = t.inner.memory_set.areas.len();
        let mut acc: u64 = 3;
        let mut i: usize = 0;
        while i < n
            invariant
                self.wf(),
                self.processor.current == Some(c),
                self.live(c as int),
                areas == self.task(c as int).inner.memory_set.areas@,
                t == self.tasks@[c as int]->Some_0,
                n == areas.len(),
                i <= n,
                acc <= 0x4000_0000_0000_0000u64,
                acc == 3 + crate::memory_set::areas_cost_from(areas, 0)
                    - crate::memory_set::areas_cost_from(areas, i as int),
            decreases n - i,
        {
            proof {
                assert(self.task_wf(c as int));
                assert(areas[i as int].wf());
                assert(crate::memory_set::areas_cost_from(areas, i as int) == 3 * (
                areas[i as int].end_vpn - areas[i as int].start_vpn)
                    + crate::memory_set::areas_cost_from(areas, i as int + 1));
            }
            if acc > 0x3000_0000_0000_0000u64 {
                return None;
            }
            let a = &t.inner.memory_set.areas[i];
            acc = acc + 3 * ((a.end_vpn - a.start_vpn) as u64);
            i = i + 1;
        }
        proof {
            assert(crate::memory_set::areas_cost_from(areas, n as int) == 0);
        }
        Some(acc)
    }

    /// The syscall demultiplexer: one identifier, up to three raw arguments,
    /// exactly the table of the user ABI. Calls whose resources the model can
    /// test — fork's frame budget, waitpid's mapped pointer — fail with -1
    /// where the hardware kernel would halt; an identifier outside the table
    /// fails with -1 and changes nothing, where the original halts.
    #[verifier::rlimit(50)]
    pub fn syscall(&mut self, id: usize, a0: usize, a1: usize, a2: usize) -> (r: isize)
        requires
            old(self).wf(),
            old(self).processor.current is Some,
            old(self).time_ms < usize::MAX / 2,
        ensures
            final(self).wf(),
            ({
                let c = old(self).processor.current->Some_0;
                let t = old(self).task(c as int);
                &&& (id == SYSCALL_YIELD ==> r == 0 && final(self).processor.current is None
                    && final(self).ready_queue@ == old(self).ready_queue@.push(c))
                &&& (id == SYSCALL_GETPID ==> r == c as isize && final(self).tasks == old(self).tasks)
                &&& (id == SYSCALL_GET_TIME ==> r == old(self).time_ms as isize)
                &&& (id == SYSCALL_CLOSE ==> ((a0 >= t.inner.fd_table@.len()
                    || t.inner.fd_table@[a0 as int] is None) <==> r == -1))
                &&& (id == SYSCALL_DUP && t.inner.fd_table@.len() < usize::MAX / 2 ==> ((a0
                    >= t.inner.fd_table@.len() || t.inner.fd_table@[a0 as int] is None) <==> r
                    == -1))
                &&& (id == SYSCALL_PIPE && a0 + 16 <= usize::MAX ==> ((r == -1) <==> exists|j: int|
                    0 <= j < 16 && #[trigger] t.inner.memory_set.byte_at((a0 + j) as nat) is None))
                &&& (id == SYSCALL_FORK && r >= 0 ==> !old(self).live(r as int) && final(self).live(r as int) && final(self).task(r as int).inner.trap_cx.x@[10] == 0 && final(self).ready_queue@ == old(self).ready_queue@.push(r as usize))
                &&& (id == SYSCALL_EXIT && r == 0 ==> final(self).processor.current is None
                    && final(self).task(c as int).inner.task_status == TaskStatus::Zombie && final(self).task(c as int).inner.exit_code == a0 as i32)
                &&& (id == SYSCALL_WAITPID && a1 + 4 <= usize::MAX && (forall|j: int|
                    0 <= j < 4 ==> #[trigger] t.inner.memory_set.byte_at((a1 + j) as nat) is Some)
                    ==> Kernel::waitpid_result_spec(
                    *old(self),
                    *final(self),
                    a0 as isize,
                    a1,
                    r,
                ))
                &&& (!(id == SYSCALL_DUP || id == SYSCALL_CLOSE || id == SYSCALL_PIPE || id
                    == SYSCALL_WRITE || id == SYSCALL_EXIT || id == SYSCALL_YIELD || id
                    == SYSCALL_GET_TIME || id == SYSCALL_GETPID || id == SYSCALL_FORK || id
                    == SYSCALL_WAITPID) ==> r == -1 && final(self).tasks == old(self).tasks
                    && final(self).pipes == old(self).pipes && final(self).console_out == old(self).console_out && final(self).ready_queue == old(self).ready_queue)
            }),
    {
        let c = match self.processor.current {
            Some(c) => c,
            None => {
                proof {
                    assert(false);
                }
                vstd::pervasive::unreached()
            },
        };
        if id == SYSCALL_DUP {
            proof {
                assert(self.task_wf(c as int));
            }
            let len_bound = match self.tasks[c].as_ref() {
                Some(t) => t.inner.fd_table.len() < usize::MAX / 2,
                None => {
                    proof {
                        assert(false);
                    }
                    vstd::pervasive::unreached()
                },
            };
            if len_bound {
                self.sys_dup(a0)
            } else {
                -1
            }
        } else if id == SYSCALL_CLOSE {
            self.sys_close(a0)
        } else if id == SYSCALL_PIPE {
            if a0 <= usize::MAX - 16 {
                self.sys_pipe(a0)
            } else {
                -1
            }
        } else if id == SYSCALL_WRITE {
            if a2 < usize::MAX / 2 && a1 <= usize::MAX - a2 {
                self.sys_write(a0, a1, a2)
            } else {
                -1
            }
        } else if id == SYSCALL_EXIT {
            let init_alive = self.tasks.len() > 0 && match self.tasks[0].as_ref() {
                Some(_) => true,
                None => false,
            };
            if c != IDLE_PID && init_alive {
                self.exit_current_and_run_next(
                    #[verifier::truncate] (a0 as i32),
                );
                0
            } else {
                -1
            }
        } else if id == SYSCALL_YIELD {
            self.sys_yield()
        } else if id == SYSCALL_GET_TIME {
            self.sys_get_time()
        } else if id == SYSCALL_GETPID {
            self.sys_getpid()
        } else if id == SYSCALL_FORK {
            let cost = match self.current_clone_cost() {
                Some(v) => v,
                None => {
                    return -1;
                },
            };
            // a conservative budget check: the untouched frontier alone
            let fa_end = self.frame_allocator.end;
            let fa_cur = self.frame_allocator.current;
            proof {
                assert(self.frame_allocator.wf());
                assert(fa_cur <= fa_end);
            }
            let free: u64 = (fa_end - fa_cur) as u64;
            let stride: usize = KERNEL_STACK_SIZE + PAGE_SIZE;
            let max_tasks: usize = (TRAMPOLINE - stride) / stride;
            let ntasks = self.tasks.len();
            let init_alive = ntasks > 0 && match self.tasks[0].as_ref() {
                Some(_) => true,
                None => false,
            };
            if free >= cost && ntasks < max_tasks && init_alive {
                proof {
                    assert((ntasks + 1) * (KERNEL_STACK_SIZE + PAGE_SIZE) + KERNEL_STACK_SIZE
                        + PAGE_SIZE <= TRAMPOLINE) by (nonlinear_arith)
                        requires
                            ntasks + 1 <= (TRAMPOLINE - (KERNEL_STACK_SIZE + PAGE_SIZE)) / ((
                            KERNEL_STACK_SIZE + PAGE_SIZE) as int),
                            KERNEL_STACK_SIZE == 8192,
                            PAGE_SIZE == 4096,
                            TRAMPOLINE >= 12288,
                    ;
                }
                proof {
                    assert(self.frame_allocator.free_count() >= 3
                        + crate::memory_set::areas_cost_from(
                        self.task(c as int).inner.memory_set.areas@,
                        0,
                    ));
                    assert((self.tasks@.len() + 1) * (KERNEL_STACK_SIZE + PAGE_SIZE)
                        + KERNEL_STACK_SIZE + PAGE_SIZE <= TRAMPOLINE);
                }
                self.sys_fork()
            } else {
                -1
            }
        } else if id == SYSCALL_WAITPID {
            if a1 > usize::MAX - 4 {
                return -1;
            }
            proof {
                assert(self.task_wf(c as int));
            }
            let mapped = match self.tasks[c].as_ref() {
                Some(t) => t.inner.memory_set.read_bytes(a1, 4),
                None => {
                    proof {
                        assert(false);
                    }
                    vstd::pervasive::unreached()
                },
            };
            match mapped {
                Some(bs) => {
                    proof {
                        assert forall|j: int| 0 <= j < 4 implies #[trigger] self.task(
                            c as int,
                        ).inner.memory_set.byte_at((a1 + j) as nat) is Some by {
                            assert(Some(bs@[j]) == self.task(c as int).inner.memory_set.byte_at(
                                (a1 + j) as nat,
                            ));
                        }
                    }
                    self.sys_waitpid(
                        #[verifier::truncate] (a0 as isize),
                        a1,
                    )
                },
                None => {
                    -1
                },
            }
        } else {
            -1
        }
    }

    /// Where a post-exit children entry came from in the pre state.
    spec fn exit_entry_source(pre: Kernel, ci: int, init_len: int, p: int, i: int) -> (int, int) {
        if p == IDLE_PID as int && i >= init_len {
            (ci, i - init_len)
        } else {
            (p, i)
        }
    }

    /// Returning one space's pages to the pool keeps every other space owned:
    /// no frame is shared, so nothing another space holds was freed.
    proof fn lemma_recycle_shrinks_frames(pre_ms: MemorySet, post_ms: MemorySet, q: usize)
        requires
            post_ms.page_table.nodes@.len() == pre_ms.page_table.nodes@.len(),
            forall|k: int|
                0 <= k < pre_ms.page_table.nodes@.len() ==> (
                #[trigger] post_ms.page_table.nodes@[k]).ppn == pre_ms.page_table.nodes@[k].ppn,
            post_ms.areas@.len() == 0,
            post_ms.is_frame_of(q),
        ensures
            pre_ms.is_frame_of(q),
    {
        if post_ms.page_table.has_node(q as u64) {
            let k = choose|k: int|
                0 <= k < post_ms.page_table.nodes@.len() && post_ms.page_table.nodes@[k].ppn as u64
                    == (q as u64);
            assert(pre_ms.page_table.nodes@[k].ppn as u64 == q as u64);
            assert(pre_ms.page_table.has_node(q as u64));
        }
    }

    /// Yield the processor voluntarily; always succeeds.
    pub fn sys_yield(&mut self) -> (r: isize)
        requires
            old(self).wf(),
            old(self).processor.current is Some,
        ensures
            final(self).wf(),
            r == 0,
            final(self).processor.current is None,
            final(self).ready_queue@ == old(self).ready_queue@.push(
                old(self).processor.current->Some_0,
            ),
    {
        self.suspend_current_and_run_next();
        0
    }

    /// Milliseconds since boot, from the model clock.
    pub fn sys_get_time(&self) -> (r: isize)
        requires
            self.time_ms < usize::MAX / 2,
        ensures
            r == self.time_ms as isize,
            r >= 0,
    {
        self.time_ms as isize
    }

    /// The PID of the running task.
    pub fn sys_getpid(&self) -> (r: isize)
        requires
            self.wf(),
            self.processor.current is Some,
        ensures
            r == self.processor.current->Some_0 as isize,
            r >= 0,
    {
        let c = match self.processor.current {
            Some(c) => c,
            None => {
                proof {
                    assert(false);
                }
                vstd::pervasive::unreached()
            },
        };
        proof {
            assert(self.live(c as int));
            assert(c < usize::MAX / 2) by (nonlinear_arith)
                requires
                    c < self.tasks@.len(),
                    self.tasks@.len() * (KERNEL_STACK_SIZE + PAGE_SIZE) + KERNEL_STACK_SIZE
                        + PAGE_SIZE <= TRAMPOLINE,
                    TRAMPOLINE <= usize::MAX,
                    KERNEL_STACK_SIZE == 8192,
                    PAGE_SIZE == 4096,
                    usize::MAX >= 0xFFFF,
            ;
        }
        c as isize
    }

    /// Record a pending signal for the running task, as the trap handler does
    /// for a fault in user mode.
    pub fn current_add_signal(&mut self, signal: crate::signal::SignalFlags)
        requires
            old(self).wf(),
            old(self).processor.current is Some,
        ensures
            final(self).wf(),
            final(self).processor == old(self).processor,
            final(self).ready_queue == old(self).ready_queue,
            final(self).time_ms == old(self).time_ms,
            final(self).task(old(self).processor.current->Some_0 as int).inner.signals.bits == old(self).task(old(self).processor.current->Some_0 as int).inner.signals.bits | signal.bits,
    {
        let c = match self.processor.current {
            Some(c) => c,
            None => {
                proof {
                    assert(false);
                }
                vstd::pervasive::unreached()
            },
        };
        let ghost pre = *self;
        proof {
            assert(pre.task_wf(c as int));
        }
        let mut t = match self.tasks[c].take() {
            Some(t) => t,
            None => {
                proof {
                    assert(false);
                }
                vstd::pervasive::unreached()
            },
        };
        t.inner.signals.insert(signal);
        self.tasks[c] = Some(t);
        proof {
            self.lemma_one_task_updated(pre, c as int);
        }
    }

    /// The errno and message of the first fatal pending signal of the running
    /// task, in signal-number order, or nothing when none is pending.
    pub fn check_signals_error_of_current(&self) -> (r: Option<(i32, &'static str)>)
        requires
            self.wf(),
            self.processor.current is Some,
        ensures
            (match r {
                Some(p) => Some(p.0),
                None => None::<i32>,
            }) == crate::signal::SignalFlags::spec_fatal_errno(
                self.task(self.processor.current->Some_0 as int).inner.signals.bits,
            ),
    {
        let c = match self.processor.current {
            Some(c) => c,
            None => {
                proof {
                    assert(false);
                }
                vstd::pervasive::unreached()
            },
        };
        match self.tasks[c].as_ref() {
            Some(t) => t.inner.signals.check_error(),
            None => {
                proof {
                    assert(false);
                }
                vstd::pervasive::unreached()
            },
        }
    }

    /// Only one pipe's contents changed; everything the invariant watches is
    /// untouched.
    proof fn lemma_pipes_updated(pre: Kernel, post: Kernel)
        requires
            pre.wf(),
            post.tasks@ == pre.tasks@,
            post.pid_allocator == pre.pid_allocator,
            post.frame_allocator == pre.frame_allocator,
            post.ready_queue@ == pre.ready_queue@,
            post.processor == pre.processor,
            post.pipes@.len() == pre.pipes@.len(),
            forall|i: int| 0 <= i < post.pipes@.len() ==> (#[trigger] post.pipes@[i]).wf(),
        ensures
            post.wf(),
    {
        assert forall|p: int| 0 <= p < post.tasks@.len() implies (post.live(p)
            <==> post.pid_allocator.outstanding().contains(p as usize)) by {
            assert(pre.live(p) <==> pre.pid_allocator.outstanding().contains(p as usize));
        }
        assert forall|q: int| post.live(q) implies #[trigger] post.task_wf(q) by {
            assert(pre.task_wf(q));
            assert(post.task(q) == pre.task(q));
        }
        assert forall|p1: int, p2: int, q: usize|
            post.live(p1) && post.live(p2) && p1 != p2 implies !(
        #[trigger] post.task(p1).inner.memory_set.is_frame_of(q)
            && #[trigger] post.task(p2).inner.memory_set.is_frame_of(q)) by {
            assert(post.task(p1) == pre.task(p1));
            assert(post.task(p2) == pre.task(p2));
        }
        assert forall|p1: int, p2: int, i1: int, i2: int|
            post.live(p1) && post.live(p2) && 0 <= i1 < post.task(p1).inner.children@.len() && 0
                <= i2 < post.task(p2).inner.children@.len() && (
            #[trigger] post.task(p1).inner.children@[i1]) == (
            #[trigger] post.task(p2).inner.children@[i2]) implies p1 == p2 && i1 == i2 by {
            assert(post.task(p1) == pre.task(p1));
            assert(post.task(p2) == pre.task(p2));
        }
        assert forall|i: int| 0 <= i < post.ready_queue@.len() implies post.live(
            (#[trigger] post.ready_queue@[i]) as int,
        ) && post.task(post.ready_queue@[i] as int).inner.task_status == TaskStatus::Ready by {
            assert(pre.live(pre.ready_queue@[i] as int));
            assert(pre.task(pre.ready_queue@[i] as int).inner.task_status == TaskStatus::Ready);
        }
    }

    /// Write `len` bytes of the running task's memory at `va` to descriptor
    /// `fd`: to the console for the standard output descriptors, into the
    /// ring for a writable pipe end — one pass, so a full ring transfers
    /// nothing and the caller retries. A missing or non-writable descriptor,
    /// or an unmapped buffer, earns -1 and changes nothing.
    pub fn sys_write(&mut self, fd: usize, va: usize, len: usize) -> (r: isize)
        requires
            old(self).wf(),
            old(self).processor.current is Some,
            va + len <= usize::MAX,
            len < usize::MAX / 2,
        ensures
            final(self).wf(),
            final(self).processor == old(self).processor,
            final(self).tasks@ == old(self).tasks@,
            final(self).ready_queue@ == old(self).ready_queue@,
            final(self).console_in@ == old(self).console_in@,
            ({
                let c = old(self).processor.current->Some_0 as int;
                let t = old(self).task(c);
                let ms = t.inner.memory_set;
                &&& (fd >= t.inner.fd_table@.len() || t.inner.fd_table@[fd as int] is None || !(
                t.inner.fd_table@[fd as int]->Some_0.spec_writable()) ==> r == -1 && final(self).console_out@ == old(self).console_out@ && final(self).pipes@ == old(self).pipes@)
                &&& (fd < t.inner.fd_table@.len() && t.inner.fd_table@[fd as int] == Some(
                    FdEntry::Stdout,
                ) ==> {
                    &&& ((forall|j: int|
                        0 <= j < len ==> #[trigger] ms.byte_at((va + j) as nat) is Some) ==> {
                        &&& r == len as isize
                        &&& final(self).console_out@.len() == old(self).console_out@.len() + len
                        &&& (forall|j: int|
                            0 <= j < old(self).console_out@.len()
                                ==> #[trigger] final(self).console_out@[j] == old(self).console_out@[j])
                        &&& (forall|j: int|
                            0 <= j < len ==> #[trigger] final(self).console_out@[old(self).console_out@.len() + j] == ms.byte_at((va + j) as nat)->Some_0)
                    })
                    &&& (!(forall|j: int|
                        0 <= j < len ==> #[trigger] ms.byte_at((va + j) as nat) is Some) ==> r
                        == -1 && final(self).console_out@ == old(self).console_out@)
                    &&& final(self).pipes@ == old(self).pipes@
                })
                &&& (fd < t.inner.fd_table@.len() && (match t.inner.fd_table@[fd as int] {
                    Some(FdEntry::PipeEnd(p)) => p.writable,
                    _ => false,
                }) ==> {
                    let p = t.inner.fd_table@[fd as int]->Some_0->PipeEnd_0;
                    let rb = old(self).pipes@[p.buffer_id as int];
                    &&& ((forall|j: int|
                        0 <= j < len ==> #[trigger] ms.byte_at((va + j) as nat) is Some) ==> {
                        &&& r == (if crate::pipe::RING_BUFFER_SIZE - rb.view().len() < len {
                            crate::pipe::RING_BUFFER_SIZE - rb.view().len()
                        } else {
                            len as int
                        })
                        &&& final(self).pipes@[p.buffer_id as int].view().len() == rb.view().len()
                            + r
                        &&& (forall|j: int|
                            0 <= j < rb.view().len() ==> #[trigger] final(self).pipes@[
                            p.buffer_id as int].view()[j] == rb.view()[j])
                        &&& (forall|j: int|
                            0 <= j < r ==> #[trigger] final(self).pipes@[
                            p.buffer_id as int].view()[rb.view().len() + j] == ms.byte_at(
                                (va + j) as nat,
                            )->Some_0)
                        &&& final(self).pipes@[p.buffer_id as int].write_ends == rb.write_ends
                    })
                    &&& (!(forall|j: int|
                        0 <= j < len ==> #[trigger] ms.byte_at((va + j) as nat) is Some) ==> r
                        == -1 && final(self).pipes@ == old(self).pipes@)
                    // no other ring changes
                    &&& (forall|b: int|
                        0 <= b < old(self).pipes@.len() && b != p.buffer_id as int
                            ==> #[trigger] final(self).pipes@[b] == old(self).pipes@[b])
                    &&& final(self).pipes@.len() == old(self).pipes@.len()
                    &&& final(self).console_out@ == old(self).console_out@
                })
            }),
    {
        let c = match self.processor.current {
            Some(c) => c,
            None => {
                proof {
                    assert(false);
                }
                vstd::pervasive::unreached()
            },
        };
        let ghost pre = *self;
        proof {
            assert(pre.task_wf(c as int));
        }
        let entry = match self.tasks[c].as_ref() {
            Some(t) => {
                if fd < t.inner.fd_table.len() {
                    t.inner.fd_table[fd]
                } else {
                    None
                }
            },
            None => {
                proof {
                    assert(false);
                }
                vstd::pervasive::unreached()
            },
        };
        match entry {
            Some(FdEntry::Stdout) => {
                let bytes = match self.tasks[c].as_ref() {
                    Some(t) => t.inner.memory_set.read_bytes(va, len),
                    None => {
                        proof {
                            assert(false);
                        }
                        vstd::pervasive::unreached()
                    },
                };
                match bytes {
                    Some(bs) => {
                        let ghost pre_out = self.console_out@;
                        let mut k: usize = 0;
                        let m = bs.len();
                        while k < m
                            invariant
                                k <= m,
                                m == bs@.len(),
                                m == len,
                                pre.processor.current == Some(c),
                                pre.live(c as int),
                                fd < pre.task(c as int).inner.fd_table@.len(),
                                pre.task(c as int).inner.fd_table@[fd as int] == Some(
                                    FdEntry::Stdout,
                                ),
                                va + len <= usize::MAX,
                                len < usize::MAX / 2,
                                forall|j: int|
                                    0 <= j < len ==> Some(#[trigger] bs@[j]) == pre.task(
                                        c as int,
                                    ).inner.memory_set.byte_at((va + j) as nat),
                                self.console_out@.len() == pre_out.len() + k,
                                forall|j: int|
                                    0 <= j < pre_out.len()
                                        ==> #[trigger] self.console_out@[j] == pre_out[j],
                                forall|j: int|
                                    0 <= j < k ==> #[trigger] self.console_out@[pre_out.len() + j]
                                        == bs@[j],
                                self.tasks == pre.tasks,
                                self.pipes == pre.pipes,
                                self.ready_queue == pre.ready_queue,
                                self.processor == pre.processor,
                                self.pid_allocator == pre.pid_allocator,
                                self.frame_allocator == pre.frame_allocator,
                                self.console_in == pre.console_in,
                                pre == *old(self),
                                pre.wf(),
                            decreases m - k,
                        {
                            let b = bs[k];
                            self.console_out.push(b);
                            k = k + 1;
                        }
                        proof {
                            Kernel::lemma_pipes_updated(pre, *self);
                            assert(len < usize::MAX / 2);
                            assert forall|j: int| 0 <= j < len implies #[trigger] pre.task(
                                c as int,
                            ).inner.memory_set.byte_at((va + j) as nat) is Some by {
                                assert(Some(bs@[j]) == pre.task(
                                    c as int,
                                ).inner.memory_set.byte_at((va + j) as nat));
                            }
                        }
                        len as isize
                    },
                    None => {
                        -1
                    },
                }
            },
            Some(FdEntry::PipeEnd(p)) => {
                if !p.writable {
                    return -1;
                }
                proof {
                    assert(p.buffer_id < pre.pipes@.len());
                }
                let bid = p.buffer_id;
                let mapped = match self.tasks[c].as_ref() {
                    Some(t) => t.inner.memory_set.read_bytes(va, len),
                    None => {
                        proof {
                            assert(false);
                        }
                        vstd::pervasive::unreached()
                    },
                };
                let mapped_bytes = match mapped {
                    Some(b) => b,
                    None => {
                        return -1;
                    },
                };
                let t = match self.tasks[c].take() {
                    Some(t) => t,
                    None => {
                        proof {
                            assert(false);
                        }
                        vstd::pervasive::unreached()
                    },
                };
                proof {
                    assert(t == pre.task(c as int));
                    assert forall|j: int| 0 <= j < len implies #[trigger] t.inner.memory_set.byte_at(
                        (va + j) as nat,
                    ) is Some by {
                        assert(Some(mapped_bytes@[j]) == t.inner.memory_set.byte_at(
                            (va + j) as nat,
                        ));
                    }
                }
                let io = crate::pipe::pipe_write_pass(
                    &mut self.pipes[bid],
                    &t.inner.memory_set,
                    va,
                    len,
                );
                self.tasks[c] = Some(t);
                proof {
                    assert(self.tasks@ =~= pre.tasks@);
                    assert forall|i: int| 0 <= i < self.pipes@.len() implies (
                    #[trigger] self.pipes@[i]).wf() by {
                        if i != bid as int {
                            assert(self.pipes@[i] == pre.pipes@[i]);
                        }
                    }
                    Kernel::lemma_pipes_updated(pre, *self);
                    assert(io.transferred <= crate::pipe::RING_BUFFER_SIZE);
                }
                io.transferred as isize
            },
            _ => {
                -1
            },
        }
    }

    /// One signal is actionable when it is pending, not blocked by the global
    /// mask, and — while a handler runs — not blocked by that handler's mask.
    pub open spec fn sig_actionable(t: crate::task::TaskControlBlockInner, sig: int) -> bool {
        &&& t.signals.bits & (1u32 << sig as u32) != 0
        &&& t.signal_mask.bits & (1u32 << sig as u32) == 0
        &&& (t.handling_sig == -1 || t.signal_actions.table@[t.handling_sig as int].mask.bits & (
        1u32 << sig as u32) == 0)
    }

    /// What acting on signal `sig` does to a task: nothing when the signal is
    /// not actionable; stop freezes and continue thaws, both clearing their
    /// bit; kill and the default action set `killed`, leaving the bit pending
    /// so the fatal-error check reports it; a nonzero user handler is
    /// entered — registers backed up, `sepc` aimed at it, the number in
    /// `x10` — and a zero handler ignores the signal.
    pub open spec fn dispatch_sig_spec(
        t: crate::task::TaskControlBlockInner,
        sig: int,
    ) -> crate::task::TaskControlBlockInner {
        let bit = 1u32 << sig as u32;
        if !Kernel::sig_actionable(t, sig) {
            t
        } else if sig == 19 {
            crate::task::TaskControlBlockInner {
                frozen: true,
                signals: crate::signal::SignalFlags { bits: t.signals.bits & !bit },
                ..t
            }
        } else if sig == 18 {
            crate::task::TaskControlBlockInner {
                frozen: false,
                signals: crate::signal::SignalFlags { bits: t.signals.bits & !bit },
                ..t
            }
        } else if sig == 9 || sig == 0 {
            crate::task::TaskControlBlockInner { killed: true, ..t }
        } else {
            let h = t.signal_actions.table@[sig].handler;
            if h == 0 {
                t
            } else {
                crate::task::TaskControlBlockInner {
                    handling_sig: sig as i32,
                    signals: crate::signal::SignalFlags { bits: t.signals.bits & !bit },
                    trap_ctx_backup: Some(t.trap_cx),
                    trap_cx: crate::trap_context::TrapContext {
                        sepc: h,
                        x: vstd::array::spec_array_update(t.trap_cx.x, 10, sig as usize),
                        ..t.trap_cx
                    },
                    ..t
                }
            }
        }
    }

    /// One whole signal pass: the fold of `dispatch_sig_spec` over the signal
    /// numbers from `sig` upwards.
    pub open spec fn signals_pass_from(
        t: crate::task::TaskControlBlockInner,
        sig: int,
    ) -> crate::task::TaskControlBlockInner
        decreases 32 - sig,
    {
        if sig < 0 || sig > crate::signal::MAX_SIG {
            t
        } else {
            Kernel::signals_pass_from(Kernel::dispatch_sig_spec(t, sig), sig + 1)
        }
    }

    /// Act on signal `sig` of the running task, which must be actionable:
    /// `SIGKILL`/`SIGSTOP`/`SIGCONT`/`SIGDEF` get the kernel's treatment —
    /// stop freezes, continue thaws, the rest kill — and a nonzero user
    /// handler is entered: registers backed up, `sepc` aimed at the handler,
    /// the signal number in `x10`. A zero handler ignores the signal.
    pub fn dispatch_one_signal(&mut self, sig: usize)
        requires
            old(self).wf(),
            old(self).processor.current is Some,
            sig <= crate::signal::MAX_SIG,
            Kernel::sig_actionable(
                old(self).task(old(self).processor.current->Some_0 as int).inner,
                sig as int,
            ),
        ensures
            final(self).wf(),
            final(self).processor == old(self).processor,
            final(self).ready_queue == old(self).ready_queue,
            final(self).console_out == old(self).console_out,
            final(self).console_in == old(self).console_in,
            final(self).pipes == old(self).pipes,
            final(self).pid_allocator == old(self).pid_allocator,
            final(self).frame_allocator == old(self).frame_allocator,
            final(self).tasks@.len() == old(self).tasks@.len(),
            forall|q: int|
                0 <= q < old(self).tasks@.len() && q != old(self).processor.current->Some_0 as int
                    ==> #[trigger] final(self).tasks@[q] == old(self).tasks@[q],
            final(self).task(old(self).processor.current->Some_0 as int).inner
                == Kernel::dispatch_sig_spec(
                old(self).task(old(self).processor.current->Some_0 as int).inner,
                sig as int,
            ),
    {
        let c = match self.processor.current {
            Some(c) => c,
            None => {
                proof {
                    assert(false);
                }
                vstd::pervasive::unreached()
            },
        };
        let ghost pre = *self;
        proof {
            assert(pre.task_wf(c as int));
        }
        let mut t = match self.tasks[c].take() {
            Some(t) => t,
            None => {
                proof {
                    assert(false);
                }
                vstd::pervasive::unreached()
            },
        };
        let bit = crate::signal::SignalFlags::from_bits(1u32 << sig as u32);
        if sig == 9 || sig == 19 || sig == 18 || sig == 0 {
            // a kernel signal
            if sig == 19 {
                // stop
                t.inner.frozen = true;
                t.inner.signals.toggle(bit);
            } else if sig == 18 {
                // continue
                t.inner.frozen = false;
                t.inner.signals.toggle(bit);
            } else {
                // kill, or the default action: the pending bit stays, so the
                // fatal-error check reports the errno on the way out
                t.inner.killed = true;
            }
        } else {
            let handler = t.inner.signal_actions.table[sig].handler;
            if handler != 0 {
                t.inner.handling_sig = sig as i32;
                t.inner.signals.toggle(bit);
                t.inner.trap_ctx_backup = Some(t.inner.trap_cx);
                t.inner.trap_cx.sepc = handler;
                t.inner.trap_cx.x[10] = sig;
            }
        }
        self.tasks[c] = Some(t);
        proof {
            self.lemma_one_task_updated(pre, c as int);
        }
    }

    /// One pass over the signal numbers, acting on every actionable one, in
    /// ascending order, as the trap path does before returning to the user.
    /// Only the running task's signal state and registers can change.
    pub fn check_pending_signals(&mut self)
        requires
            old(self).wf(),
            old(self).processor.current is Some,
        ensures
            final(self).wf(),
            final(self).processor == old(self).processor,
            final(self).ready_queue == old(self).ready_queue,
            final(self).console_out == old(self).console_out,
            final(self).pipes == old(self).pipes,
            final(self).tasks@.len() == old(self).tasks@.len(),
            forall|q: int|
                0 <= q < old(self).tasks@.len() && q != old(self).processor.current->Some_0 as int
                    ==> #[trigger] final(self).tasks@[q] == old(self).tasks@[q],
            final(self).task(old(self).processor.current->Some_0 as int).inner
                == Kernel::signals_pass_from(
                old(self).task(old(self).processor.current->Some_0 as int).inner,
                0,
            ),
    {
        let c = match self.processor.current {
            Some(c) => c,
            None => {
                proof {
                    assert(false);
                }
                vstd::pervasive::unreached()
            },
        };
        let ghost pre = *self;
        let mut sig: usize = 0;
        while sig < crate::signal::MAX_SIG + 1
            invariant
                self.wf(),
                sig <= crate::signal::MAX_SIG + 1,
                self.processor == pre.processor,
                self.ready_queue == pre.ready_queue,
                self.console_out == pre.console_out,
                self.pipes == pre.pipes,
                self.tasks@.len() == pre.tasks@.len(),
                pre == *old(self),
                pre.processor.current == Some(c),
                forall|q: int|
                    0 <= q < pre.tasks@.len() && q != c as int ==> #[trigger] self.tasks@[q]
                        == pre.tasks@[q],
                Kernel::signals_pass_from(pre.task(c as int).inner, 0)
                    == Kernel::signals_pass_from(self.task(c as int).inner, sig as int),
            decreases crate::signal::MAX_SIG + 1 - sig,
        {
            proof {
                assert(self.task_wf(c as int));
            }
            let ghost before_inner = self.task(c as int).inner;
            let actionable = match self.tasks[c].as_ref() {
                Some(t) => {
                    let pending = t.inner.signals.bits & (1u32 << sig as u32) != 0;
                    let masked_globally = t.inner.signal_mask.bits & (1u32 << sig as u32) != 0;
                    let masked_by_handler = if t.inner.handling_sig == -1 {
                        false
                    } else {
                        let h = t.inner.handling_sig as usize;
                        if h < t.inner.signal_actions.table.len() {
                            t.inner.signal_actions.table[h].mask.bits & (1u32 << sig as u32) != 0
                        } else {
                            proof {
                                assert(false);
                            }
                            true
                        }
                    };
                    pending && !masked_globally && !masked_by_handler
                },
                None => {
                    proof {
                        assert(false);
                    }
                    vstd::pervasive::unreached()
                },
            };
            if actionable {
                proof {
                    assert(Kernel::sig_actionable(self.task(c as int).inner, sig as int)) by {
                        assert(self.task_wf(c as int));
                    }
                }
                self.dispatch_one_signal(sig);
                proof {
                    assert(self.task(c as int).inner == Kernel::dispatch_sig_spec(
                        before_inner,
                        sig as int,
                    ));
                }
            } else {
                proof {
                    assert(!Kernel::sig_actionable(before_inner, sig as int));
                    assert(Kernel::dispatch_sig_spec(before_inner, sig as int) == before_inner);
                }
            }
            proof {
                assert(Kernel::signals_pass_from(before_inner, sig as int)
                    == Kernel::signals_pass_from(
                    Kernel::dispatch_sig_spec(before_inner, sig as int),
                    sig as int + 1,
                ));
            }
            sig = sig + 1;
        }
        proof {
            assert(Kernel::signals_pass_from(self.task(c as int).inner, 32) == self.task(
                c as int,
            ).inner);
        }
    }

    /// The trap path's signal step: act on the pending signals, then tell the
    /// caller whether the task is frozen and must yield before retrying —
    /// the suspension loop of the original runs around this.
    pub fn handle_signals(&mut self) -> (suspend: bool)
        requires
            old(self).wf(),
            old(self).processor.current is Some,
        ensures
            final(self).wf(),
            final(self).processor == old(self).processor,
            final(self).task(old(self).processor.current->Some_0 as int).inner
                == Kernel::signals_pass_from(
                old(self).task(old(self).processor.current->Some_0 as int).inner,
                0,
            ),
            suspend == (final(self).task(
                old(self).processor.current->Some_0 as int,
            ).inner.frozen && !final(self).task(
                old(self).processor.current->Some_0 as int,
            ).inner.killed),
    {
        let c = match self.processor.current {
            Some(c) => c,
            None => {
                proof {
                    assert(false);
                }
                vstd::pervasive::unreached()
            },
        };
        self.check_pending_signals();
        match self.tasks[c].as_ref() {
            Some(t) => t.inner.frozen && !t.inner.killed,
            None => {
                proof {
                    assert(false);
                }
                vstd::pervasive::unreached()
            },
        }
    }

    /// Replace the running task's program: the old address space's frames go
    /// back to the pool, a fresh space is built from program `idx`, the
    /// argument strings and their pointer table are pushed onto the new user
    /// stack, and the registers are reset — entry point in `sepc`, the
    /// argument count in `x10`, the table's address in `x11`. PID, kernel
    /// stack, descriptors and children survive. A bad `idx` — exec of a
    /// missing binary — earns -1 and changes nothing.
    #[verifier::rlimit(100)]
    #[verifier::spinoff_prover]
    pub fn sys_exec(&mut self, idx: usize, args: Vec<Vec<u8>>) -> (r: isize)
        requires
            old(self).wf(),
            old(self).processor.current is Some,
            // the pointer table and the strings fit on the user stack
            8 * (crate::loader::args_view(&args).len() + 1) + crate::loader::args_size(
                crate::loader::args_view(&args),
                crate::loader::args_view(&args).len() as int,
            ) <= crate::config::USER_STACK_SIZE,
            idx < old(self).programs@.len() ==> old(self).programs@[idx as int].wf() && old(self).frame_allocator.free_count() >= old(self).programs@[idx as int].build_cost(),
        ensures
            final(self).wf(),
            final(self).processor == old(self).processor,
            final(self).ready_queue == old(self).ready_queue,
            final(self).console_out == old(self).console_out,
            final(self).pipes == old(self).pipes,
            final(self).programs == old(self).programs,
            idx >= old(self).programs@.len() ==> r == -1 && final(self).tasks@ == old(self).tasks@,
            idx < old(self).programs@.len() ==> ({
                let c = old(self).processor.current->Some_0 as int;
                let t = old(self).task(c);
                let nt = final(self).task(c);
                let prog = old(self).programs@[idx as int];
                let usp0 = (prog.spec_end() + 1 + (crate::config::USER_STACK_SIZE as int) / (
                PAGE_SIZE as int)) * PAGE_SIZE;
                let av = crate::loader::args_view(&args);
                &&& r == 0
                &&& nt.pid == t.pid
                &&& nt.kernel_stack == t.kernel_stack
                &&& nt.inner.fd_table == t.inner.fd_table
                &&& nt.inner.children == t.inner.children
                &&& nt.inner.parent == t.inner.parent
                &&& nt.inner.trap_cx.sepc == prog.entry
                &&& nt.inner.trap_cx.x@[10] == args@.len()
                &&& nt.inner.trap_cx.x@[11] == usp0 - 8 * (args@.len() + 1)
                &&& nt.inner.trap_cx.x@[2] == ({
                    let low = crate::loader::exec_arg_addr(av, usp0, args@.len() - 1);
                    low - low % 8
                })
                &&& nt.inner.trap_cx.kernel_satp == old(self).kernel_satp
                &&& nt.inner.trap_cx.trap_handler == crate::task::TRAP_HANDLER_PC
                // the new image is in place
                &&& (forall|i: int, off: int|
                    0 <= i < prog.segments@.len() && 0 <= off < prog.segments@[i].data@.len()
                        ==> #[trigger] nt.inner.memory_set.byte_at(
                        (prog.segments@[i].start_vpn * PAGE_SIZE + off) as nat,
                    ) == Some(prog.segments@[i].data@[off]))
                // the argument strings, NUL-terminated, and their table
                &&& (forall|i: int, k: int|
                    0 <= i < av.len() && 0 <= k <= av[i].len()
                        ==> #[trigger] nt.inner.memory_set.byte_at(
                        (crate::loader::exec_arg_addr(av, usp0, i) + k) as nat,
                    ) == Some(
                        if k < av[i].len() {
                            av[i][k]
                        } else {
                            0u8
                        },
                    ))
                &&& (forall|i: int, j: int|
                    0 <= i <= av.len() && 0 <= j < 8 ==> #[trigger] nt.inner.memory_set.byte_at(
                        ((usp0 - 8 * (av.len() + 1)) + 8 * i + j) as nat,
                    ) == Some(
                        crate::memory_set::u64_le_byte(
                            if i < av.len() {
                                crate::loader::exec_arg_addr(av, usp0, i) as u64
                            } else {
                                0u64
                            },
                            j,
                        ),
                    ))
            }),
    {
        let c = match self.processor.current {
            Some(c) => c,
            None => {
                proof {
                    assert(false);
                }
                vstd::pervasive::unreached()
            },
        };
        if idx >= self.programs.len() {
            return -1;
        }
        let ghost pre = *self;
        proof {
            assert(pre.task_wf(c as int));
        }
        let mut t = match self.tasks[c].take() {
            Some(t) => t,
            None => {
                proof {
                    assert(false);
                }
                vstd::pervasive::unreached()
            },
        };
        proof {
            assert(t == pre.task(c as int));
        }
        // give the old space back
        let mut old_ms = MemorySet {
            page_table: crate::page_table::PageTable {
                root_ppn: crate::address::PhysPageNum(0),
                nodes: Vec::new(),
            },
            areas: Vec::new(),
            trampoline_ppn: None,
        };
        core::mem::swap(&mut t.inner.memory_set, &mut old_ms);
        proof {
            assert forall|q2: usize|
                !(pre.task(c as int).inner.memory_set.is_frame_of(q2) && pre.task(
                    c as int,
                ).inner.memory_set.is_frame_of(q2) && false) by {}
        }
        old_ms.release(&mut self.frame_allocator);
        let ghost mid_fa = self.frame_allocator;
        // build the replacement and lay out the arguments
        let (built, user_sp, entry) = crate::loader::build_user_space(
            &self.programs[idx],
            &mut self.frame_allocator,
        );
        let mut new_ms = built;
        proof {
            assert(crate::config::USER_STACK_SIZE <= user_sp < usize::MAX / 2) by (
            nonlinear_arith)
                requires
                    user_sp == (pre.programs@[idx as int].spec_end() + 1 + (
                    crate::config::USER_STACK_SIZE as int) / (PAGE_SIZE as int)) * PAGE_SIZE,
                    0 <= pre.programs@[idx as int].spec_end()
                        < crate::loader::USER_SPACE_LIMIT_VPN,
                    crate::loader::USER_SPACE_LIMIT_VPN == 0x40000,
                    PAGE_SIZE == 4096,
                    crate::config::USER_STACK_SIZE == 8192,
                    usize::MAX >= 0xFFFF_FFFF,
            ;
            assert forall|va: nat|
                user_sp - crate::config::USER_STACK_SIZE <= va < user_sp implies
            #[trigger] new_ms.byte_at(va) is Some by {
                let off = va - (user_sp - crate::config::USER_STACK_SIZE);
                assert(new_ms.byte_at(
                    ((pre.programs@[idx as int].spec_end() + 1) * PAGE_SIZE + off) as nat,
                ) == Some(0u8));
                assert(va == ((pre.programs@[idx as int].spec_end() + 1) * PAGE_SIZE
                    + off) as nat);
            }
        }
        proof {
            assert(user_sp % 8 == 0) by (nonlinear_arith)
                requires
                    user_sp == (pre.programs@[idx as int].spec_end() + 1 + (
                    crate::config::USER_STACK_SIZE as int) / (PAGE_SIZE as int)) * PAGE_SIZE,
                    PAGE_SIZE == 4096,
                    crate::config::USER_STACK_SIZE == 8192,
                    pre.programs@[idx as int].spec_end() >= 0,
            ;
        }
        let sp = crate::loader::push_exec_args(&mut new_ms, user_sp, &args);
        proof {
            assert(c * (KERNEL_STACK_SIZE + PAGE_SIZE) + KERNEL_STACK_SIZE + PAGE_SIZE
                <= TRAMPOLINE) by (nonlinear_arith)
                requires
                    c < pre.tasks@.len(),
                    pre.tasks@.len() * (KERNEL_STACK_SIZE + PAGE_SIZE) + KERNEL_STACK_SIZE
                        + PAGE_SIZE <= TRAMPOLINE,
            ;
        }
        let kernel_stack_top = t.kernel_stack.get_top();
        let mut cx = crate::trap_context::TrapContext::app_init_context(
            entry,
            sp,
            self.kernel_satp,
            kernel_stack_top,
            crate::task::TRAP_HANDLER_PC,
        );
        cx.x[10] = args.len();
        proof {
            crate::loader::lemma_args_size_nonneg(
                crate::loader::args_view(&args),
                args@.len() as int,
            );
        }
        cx.x[11] = user_sp - 8 * (args.len() + 1);
        t.inner.memory_set = new_ms;
        t.inner.trap_cx = cx;
        t.inner.base_size = user_sp;
        self.tasks[c] = Some(t);
        proof {
            let post = *self;
            let ci = c as int;
            assert forall|p: int| 0 <= p < post.tasks@.len() implies (post.live(p)
                <==> post.pid_allocator.outstanding().contains(p as usize)) by {
                assert(pre.live(p) <==> pre.pid_allocator.outstanding().contains(p as usize));
                if p != ci {
                    assert(post.tasks@[p] == pre.tasks@[p]);
                }
            }
            assert forall|q: int| post.live(q) implies #[trigger] post.task_wf(q) by {
                assert(pre.live(q) && pre.task_wf(q));
                if q == ci {
                    crate::memory_set::lemma_same_structure_owns(
                        built,
                        post.task(ci).inner.memory_set,
                        post.frame_allocator,
                    );
                } else {
                    assert(post.task(q) == pre.task(q));
                    assert forall|q2: usize|
                        !(pre.task(q).inner.memory_set.is_frame_of(q2) && pre.task(
                            ci,
                        ).inner.memory_set.is_frame_of(q2)) by {}
                    pre.task(q).inner.memory_set.lemma_owns_preserved_after_release(
                        pre.frame_allocator,
                        mid_fa,
                        pre.task(ci).inner.memory_set,
                    );
                    pre.task(q).inner.memory_set.lemma_owns_superset(
                        mid_fa,
                        post.frame_allocator,
                    );
                }
            }
            assert forall|p1: int, p2: int, q: usize|
                post.live(p1) && post.live(p2) && p1 != p2 implies !(
            #[trigger] post.task(p1).inner.memory_set.is_frame_of(q)
                && #[trigger] post.task(p2).inner.memory_set.is_frame_of(q)) by {
                if post.task(p1).inner.memory_set.is_frame_of(q) && post.task(
                    p2,
                ).inner.memory_set.is_frame_of(q) {
                    if p1 == ci || p2 == ci {
                        let other = if p1 == ci {
                            p2
                        } else {
                            p1
                        };
                        crate::memory_set::MemorySet::lemma_same_structure_frames(
                            built,
                            post.task(ci).inner.memory_set,
                            q,
                        );
                        assert(!mid_fa.outstanding().contains(q));
                        assert(post.task(other) == pre.task(other));
                        assert(pre.live(other) && pre.task_wf(other));
                        assert(pre.task_wf(ci));
                        assert forall|q2: usize|
                            !(pre.task(other).inner.memory_set.is_frame_of(q2) && pre.task(
                                ci,
                            ).inner.memory_set.is_frame_of(q2)) by {}
                        pre.task(other).inner.memory_set.lemma_owns_preserved_after_release(
                            pre.frame_allocator,
                            mid_fa,
                            pre.task(ci).inner.memory_set,
                        );
                        pre.task(other).inner.memory_set.lemma_frames_outstanding(mid_fa, q);
                        assert(false);
                    } else {
                        assert(post.task(p1) == pre.task(p1));
                        assert(post.task(p2) == pre.task(p2));
                    }
                }
            }
            assert forall|i: int| 0 <= i < post.ready_queue@.len() implies post.live(
                (#[trigger] post.ready_queue@[i]) as int,
            ) && post.task(post.ready_queue@[i] as int).inner.task_status == TaskStatus::Ready by {
                assert(pre.live(pre.ready_queue@[i] as int));
                assert(pre.task(pre.ready_queue@[i] as int).inner.task_status
                    == TaskStatus::Ready);
                assert(pre.ready_queue@[i] != c);
            }
            assert forall|p1: int, p2: int, i1: int, i2: int|
                post.live(p1) && post.live(p2) && 0 <= i1 < post.task(p1).inner.children@.len()
                    && 0 <= i2 < post.task(p2).inner.children@.len() && (
                #[trigger] post.task(p1).inner.children@[i1]) == (
                #[trigger] post.task(p2).inner.children@[i2]) implies p1 == p2 && i1 == i2 by {
                if p1 != ci {
                    assert(post.task(p1) == pre.task(p1));
                }
                if p2 != ci {
                    assert(post.task(p2) == pre.task(p2));
                }
            }
            assert(post.wf());
        }
        0
    }

    /// Advance the model clock by one timer tick.
    pub fn timer_tick(&mut self)
        requires
            old(self).wf(),
            old(self).time_ms + TICK_MS <= usize::MAX,
        ensures
            final(self).wf(),
            final(self).time_ms == old(self).time_ms + TICK_MS,
            final(self).tasks == old(self).tasks,
            final(self).ready_queue == old(self).ready_queue,
            final(self).processor == old(self).processor,
    {
        let ghost pre = *self;
        self.time_ms = self.time_ms + TICK_MS;
        proof {
            Kernel::lemma_scheduling_update(pre, *self);
        }
    }

    /// Dispatch one user trap, as the supervisor-mode handler does once the
    /// trampoline has saved the registers: a syscall advances `sepc` past the
    /// `ecall` and hands back the demuxed call; a memory fault records
    /// `SIGSEGV` and an illegal instruction `SIGILL` in the running task's
    /// pending set; the timer advances the clock and preempts the task to the
    /// back of the queue.
    pub fn trap_dispatch(&mut self, cause: TrapCause) -> (r: TrapAction)
        requires
            old(self).wf(),
            old(self).processor.current is Some,
            old(self).time_ms + TICK_MS <= usize::MAX,
        ensures
            final(self).wf(),
            ({
                let c = old(self).processor.current->Some_0 as int;
                let t = old(self).task(c).inner;
                match cause {
                    TrapCause::UserEnvCall => {
                        &&& r == TrapAction::Syscall {
                            id: t.trap_cx.x@[17],
                            a0: t.trap_cx.x@[10],
                            a1: t.trap_cx.x@[11],
                            a2: t.trap_cx.x@[12],
                        }
                        &&& final(self).processor == old(self).processor
                        &&& (t.trap_cx.sepc + 4 <= usize::MAX ==> final(self).task(
                            c,
                        ).inner.trap_cx.sepc == t.trap_cx.sepc + 4)
                        &&& final(self).task(c).inner.trap_cx.x@ == t.trap_cx.x@
                        &&& final(self).task(c).inner.signals == t.signals
                    },
                    TrapCause::SupervisorTimer => {
                        &&& r == TrapAction::TimerPreempted
                        &&& final(self).time_ms == old(self).time_ms + TICK_MS
                        &&& final(self).processor.current is None
                        &&& final(self).ready_queue@ == old(self).ready_queue@.push(
                            old(self).processor.current->Some_0,
                        )
                        &&& final(self).task(c).inner.task_status == TaskStatus::Ready
                    },
                    TrapCause::IllegalInstruction => {
                        &&& r == TrapAction::FaultSignalled
                        &&& final(self).processor == old(self).processor
                        &&& final(self).task(c).inner.signals.bits == t.signals.bits
                            | crate::signal::SIGILL
                    },
                    _ => {
                        &&& r == TrapAction::FaultSignalled
                        &&& final(self).processor == old(self).processor
                        &&& final(self).task(c).inner.signals.bits == t.signals.bits
                            | crate::signal::SIGSEGV
                    },
                }
            }),
    {
        match cause {
            TrapCause::UserEnvCall => {
                let c = match self.processor.current {
                    Some(c) => c,
                    None => {
                        proof {
                            assert(false);
                        }
                        vstd::pervasive::unreached()
                    },
                };
                let ghost pre = *self;
                proof {
                    assert(pre.task_wf(c as int));
                }
                let mut t = match self.tasks[c].take() {
                    Some(t) => t,
                    None => {
                        proof {
                            assert(false);
                        }
                        vstd::pervasive::unreached()
                    },
                };
                let id = t.inner.trap_cx.x[17];
                let a0 = t.inner.trap_cx.x[10];
                let a1 = t.inner.trap_cx.x[11];
                let a2 = t.inner.trap_cx.x[12];
                if t.inner.trap_cx.sepc <= usize::MAX - 4 {
                    t.inner.trap_cx.sepc = t.inner.trap_cx.sepc + 4;
                }
                self.tasks[c] = Some(t);
                proof {
                    self.lemma_one_task_updated(pre, c as int);
                }
                TrapAction::Syscall { id, a0, a1, a2 }
            },
            TrapCause::SupervisorTimer => {
                self.timer_tick();
                self.suspend_current_and_run_next();
                TrapAction::TimerPreempted
            },
            TrapCause::IllegalInstruction => {
                self.current_add_signal(crate::signal::SignalFlags::from_bits(
                    crate::signal::SIGILL,
                ));
                TrapAction::FaultSignalled
            },
            _ => {
                self.current_add_signal(crate::signal::SignalFlags::from_bits(
                    crate::signal::SIGSEGV,
                ));
                TrapAction::FaultSignalled
            },
        }
    }

    /// Like `lemma_one_task_updated`, for steps that also change the task's
    /// descriptor table and may append pipes.
    proof fn lemma_one_task_fds_updated(self, pre: Kernel, p: int)
        requires
            pre.wf(),
            pre.live(p),
            self.live(p),
            self.tasks@.len() == pre.tasks@.len(),
            forall|q: int| 0 <= q < pre.tasks@.len() && q != p ==> self.tasks@[q] == pre.tasks@[q],
            self.ready_queue == pre.ready_queue,
            self.pid_allocator == pre.pid_allocator,
            self.frame_allocator == pre.frame_allocator,
            self.pipes@.len() >= pre.pipes@.len(),
            forall|i: int| 0 <= i < self.pipes@.len() ==> (#[trigger] self.pipes@[i]).wf(),
            self.processor == pre.processor,
            self.task(p).pid == pre.task(p).pid,
            self.task(p).kernel_stack == pre.task(p).kernel_stack,
            crate::memory_set::same_structure(
                pre.task(p).inner.memory_set,
                self.task(p).inner.memory_set,
            ),
            self.task(p).inner.memory_set.wf(),
            self.task(p).inner.children == pre.task(p).inner.children,
            self.task(p).inner.parent == pre.task(p).inner.parent,
            self.task(p).inner.signal_actions == pre.task(p).inner.signal_actions,
            self.task(p).inner.handling_sig == pre.task(p).inner.handling_sig,
            self.task(p).inner.task_status == pre.task(p).inner.task_status,
            forall|fd: int|
                0 <= fd < self.task(p).inner.fd_table@.len() ==> match #[trigger] self.task(
                    p,
                ).inner.fd_table@[fd] {
                    Some(FdEntry::PipeEnd(pp)) => pp.buffer_id < self.pipes@.len(),
                    _ => true,
                },
        ensures
            self.wf(),
    {
        assert(pre.task_wf(p));
        crate::memory_set::lemma_same_structure_owns(
            pre.task(p).inner.memory_set,
            self.task(p).inner.memory_set,
            self.frame_allocator,
        );
        assert forall|p2: int| 0 <= p2 < self.tasks@.len() implies (self.live(p2)
            <==> self.pid_allocator.outstanding().contains(p2 as usize)) by {
            assert(pre.live(p2) <==> pre.pid_allocator.outstanding().contains(p2 as usize));
            if p2 != p {
                assert(self.tasks@[p2] == pre.tasks@[p2]);
            }
        }
        assert forall|q: int| self.live(q) implies #[trigger] self.task_wf(q) by {
            assert(pre.task_wf(q));
            if q != p {
                assert(self.task(q) == pre.task(q));
                assert forall|fd: int|
                    0 <= fd < self.task(q).inner.fd_table@.len() implies match #[trigger] self.task(
                    q,
                ).inner.fd_table@[fd] {
                    Some(FdEntry::PipeEnd(pp)) => pp.buffer_id < self.pipes@.len(),
                    _ => true,
                } by {
                    assert(self.task(q).inner.fd_table@[fd] == pre.task(q).inner.fd_table@[fd]);
                }
            }
        }
        assert forall|p1: int, p2: int, q: usize|
            self.live(p1) && self.live(p2) && p1 != p2 implies !(
        #[trigger] self.task(p1).inner.memory_set.is_frame_of(q)
            && #[trigger] self.task(p2).inner.memory_set.is_frame_of(q)) by {
            if p1 == p {
                crate::memory_set::MemorySet::lemma_same_structure_frames(
                    pre.task(p).inner.memory_set,
                    self.task(p).inner.memory_set,
                    q,
                );
            } else {
                assert(self.task(p1).inner.memory_set == pre.task(p1).inner.memory_set);
            }
            if p2 == p {
                crate::memory_set::MemorySet::lemma_same_structure_frames(
                    pre.task(p).inner.memory_set,
                    self.task(p).inner.memory_set,
                    q,
                );
            } else {
                assert(self.task(p2).inner.memory_set == pre.task(p2).inner.memory_set);
            }
        }
        assert forall|p1: int, p2: int, i1: int, i2: int|
            self.live(p1) && self.live(p2) && 0 <= i1 < self.task(p1).inner.children@.len() && 0
                <= i2 < self.task(p2).inner.children@.len() && (
            #[trigger] self.task(p1).inner.children@[i1]) == (
            #[trigger] self.task(p2).inner.children@[i2]) implies p1 == p2 && i1 == i2 by {
            if p1 != p {
                assert(self.task(p1).inner.children == pre.task(p1).inner.children);
            }
            if p2 != p {
                assert(self.task(p2).inner.children == pre.task(p2).inner.children);
            }
        }
    }

    /// Make a pipe: a fresh ring with both capabilities installed at the two
    /// lowest free descriptors of the running task, whose numbers land
    /// little-endian at `pipe_ptr` and `pipe_ptr + 8` in its memory. Nothing
    /// changes and -1 comes back when that range is unmapped.
    pub fn sys_pipe(&mut self, pipe_ptr: usize) -> (r: isize)
        requires
            old(self).wf(),
            old(self).processor.current is Some,
            pipe_ptr + 16 <= usize::MAX,
        ensures
            final(self).wf(),
            final(self).processor == old(self).processor,
            final(self).ready_queue == old(self).ready_queue,
            r == 0 || r == -1,
            ((r == -1) <==> exists|j: int|
                0 <= j < 16 && #[trigger] old(self).task(
                    old(self).processor.current->Some_0 as int,
                ).inner.memory_set.byte_at((pipe_ptr + j) as nat) is None),
            r == 0 ==> ({
                let c = old(self).processor.current->Some_0 as int;
                let t = old(self).task(c);
                let nt = final(self).task(c);
                &&& final(self).pipes@.len() == old(self).pipes@.len() + 1
                &&& final(self).pipes@.last().view() == Seq::<u8>::empty()
                &&& final(self).pipes@.last().write_ends == 1
                &&& exists|rfd: int, wfd: int|
                    {
                        &&& 0 <= rfd < nt.inner.fd_table@.len()
                        &&& 0 <= wfd < nt.inner.fd_table@.len()
                        &&& rfd != wfd
                        &&& #[trigger] nt.inner.fd_table@[rfd] == Some(
                            FdEntry::PipeEnd(
                                Pipe {
                                    readable: true,
                                    writable: false,
                                    buffer_id: old(self).pipes@.len() as usize,
                                },
                            ),
                        )
                        &&& #[trigger] nt.inner.fd_table@[wfd] == Some(
                            FdEntry::PipeEnd(
                                Pipe {
                                    readable: false,
                                    writable: true,
                                    buffer_id: old(self).pipes@.len() as usize,
                                },
                            ),
                        )
                        &&& (forall|j: int|
                            0 <= j < 8 ==> #[trigger] nt.inner.memory_set.byte_at(
                                (pipe_ptr + j) as nat,
                            ) == Some(crate::memory_set::u64_le_byte(rfd as u64, j)))
                        &&& (forall|j: int|
                            0 <= j < 8 ==> #[trigger] nt.inner.memory_set.byte_at(
                                (pipe_ptr + 8 + j) as nat,
                            ) == Some(crate::memory_set::u64_le_byte(wfd as u64, j)))
                    }
            }),
            r == -1 ==> final(self).tasks@ == old(self).tasks@ && final(self).pipes@ == old(self).pipes@,
    {
        let c = match self.processor.current {
            Some(c) => c,
            None => {
                proof {
                    assert(false);
                }
                vstd::pervasive::unreached()
            },
        };
        let ghost pre = *self;
        proof {
            assert(pre.task_wf(c as int));
        }
        // the range must be writable before anything is allocated
        let ok = match self.tasks[c].as_ref() {
            Some(t) => t.inner.memory_set.read_bytes(pipe_ptr, 16),
            None => {
                proof {
                    assert(false);
                }
                vstd::pervasive::unreached()
            },
        };
        let okbs = match ok {
            Some(b) => b,
            None => {
                proof {
                    assert(exists|j: int|
                        0 <= j < 16 && #[trigger] pre.task(
                            c as int,
                        ).inner.memory_set.byte_at((pipe_ptr + j) as nat) is None);
                }
                return -1;
            },
        };
        proof {
            assert forall|j: int| 0 <= j < 16 implies #[trigger] pre.task(
                c as int,
            ).inner.memory_set.byte_at((pipe_ptr + j) as nat) is Some by {
                assert(Some(okbs@[j]) == pre.task(c as int).inner.memory_set.byte_at(
                    (pipe_ptr + j) as nat,
                ));
            }
        }
        let mut rb = PipeRingBuffer::new();
        rb.set_write_end();
        let bid = self.pipes.len();
        self.pipes.push(rb);
        let mut t = match self.tasks[c].take() {
            Some(t) => t,
            None => {
                proof {
                    assert(false);
                }
                vstd::pervasive::unreached()
            },
        };
        proof {
            assert(t == pre.task(c as int));
        }
        let read_fd = t.inner.alloc_fd();
        t.inner.fd_table[read_fd] = Some(FdEntry::PipeEnd(Pipe::read_end_with_buffer(bid)));
        let write_fd = t.inner.alloc_fd();
        t.inner.fd_table[write_fd] = Some(FdEntry::PipeEnd(Pipe::write_end_with_buffer(bid)));
        let ok1 = t.inner.memory_set.write_u64(pipe_ptr, read_fd as u64);
        let ghost mid_ms = t.inner.memory_set;
        let ok2 = t.inner.memory_set.write_u64(pipe_ptr + 8, write_fd as u64);
        self.tasks[c] = Some(t);
        proof {
            let post = *self;
            assert forall|i: int| 0 <= i < post.pipes@.len() implies (
            #[trigger] post.pipes@[i]).wf() by {
                if i < pre.pipes@.len() {
                    assert(post.pipes@[i] == pre.pipes@[i]);
                }
            }
            crate::memory_set::lemma_same_structure_owns(
                pre.task(c as int).inner.memory_set,
                post.task(c as int).inner.memory_set,
                post.frame_allocator,
            );
            assert forall|fd: int|
                0 <= fd < post.task(c as int).inner.fd_table@.len() implies match #[trigger] post.task(
                c as int,
            ).inner.fd_table@[fd] {
                Some(FdEntry::PipeEnd(pp)) => pp.buffer_id < post.pipes@.len(),
                _ => true,
            } by {
                if fd != read_fd as int && fd != write_fd as int && fd < pre.task(
                    c as int,
                ).inner.fd_table@.len() {
                    assert(post.task(c as int).inner.fd_table@[fd] == pre.task(
                        c as int,
                    ).inner.fd_table@[fd]);
                }
            }
            post.lemma_one_task_fds_updated(pre, c as int);
            assert(read_fd != write_fd);
            assert(ok1 && ok2) by {
                assert forall|j: int| 0 <= j < 8 implies #[trigger] pre.task(
                    c as int,
                ).inner.memory_set.byte_at((pipe_ptr + j) as nat) is Some && pre.task(
                    c as int,
                ).inner.memory_set.byte_at((pipe_ptr + 8 + j) as nat) is Some by {
                    assert(Some(okbs@[j]) == pre.task(c as int).inner.memory_set.byte_at(
                        (pipe_ptr + j) as nat,
                    ));
                    assert(Some(okbs@[8 + j]) == pre.task(c as int).inner.memory_set.byte_at(
                        (pipe_ptr + (8 + j)) as nat,
                    ));
                    assert((pipe_ptr + (8 + j)) as nat == (pipe_ptr + 8 + j) as nat);
                }
                assert forall|j: int| 0 <= j < 8 implies #[trigger] mid_ms.byte_at(
                    (pipe_ptr + 8 + j) as nat,
                ) is Some by {
                    assert(pipe_ptr + 8 + j >= pipe_ptr + 8);
                    assert(mid_ms.byte_at((pipe_ptr + 8 + j) as nat) == pre.task(
                        c as int,
                    ).inner.memory_set.byte_at((pipe_ptr + 8 + j) as nat));
                    assert(Some(okbs@[8 + j]) == pre.task(c as int).inner.memory_set.byte_at(
                        (pipe_ptr + (8 + j)) as nat,
                    ));
                }
            }
            assert forall|j: int| 0 <= j < 8 implies #[trigger] post.task(
                c as int,
            ).inner.memory_set.byte_at((pipe_ptr + j) as nat) == Some(
                crate::memory_set::u64_le_byte(read_fd as u64, j),
            ) by {
                assert(mid_ms.byte_at((pipe_ptr + j) as nat) == Some(
                    crate::memory_set::u64_le_byte(read_fd as u64, j),
                ));
                assert(pipe_ptr + j < pipe_ptr + 8);
            }
            let post = *self;
            let ci = c as int;
            let rfd = read_fd as int;
            let wfd = write_fd as int;
            assert(post.task(ci).inner.fd_table@[rfd] == Some(
                FdEntry::PipeEnd(Pipe { readable: true, writable: false, buffer_id: bid }),
            ));
            assert(post.task(ci).inner.fd_table@[wfd] == Some(
                FdEntry::PipeEnd(Pipe { readable: false, writable: true, buffer_id: bid }),
            ));
            assert forall|j: int| 0 <= j < 8 implies #[trigger] post.task(
                ci,
            ).inner.memory_set.byte_at((pipe_ptr + 8 + j) as nat) == Some(
                crate::memory_set::u64_le_byte(write_fd as u64, j),
            ) by {
                assert(post.task(ci).inner.memory_set.byte_at(((pipe_ptr + 8) + j) as nat)
                    == Some(crate::memory_set::u64_le_byte(write_fd as u64, j)));
                assert(((pipe_ptr + 8) + j) as nat == (pipe_ptr + 8 + j) as nat);
            }
        }
        0
    }

    /// Close descriptor `fd` of the running task. Closing the write end of a
    /// pipe lets its readers see end of stream. A missing descriptor earns
    /// -1.
    pub fn sys_close(&mut self, fd: usize) -> (r: isize)
        requires
            old(self).wf(),
            old(self).processor.current is Some,
        ensures
            final(self).wf(),
            final(self).processor == old(self).processor,
            final(self).ready_queue == old(self).ready_queue,
            ({
                let c = old(self).processor.current->Some_0 as int;
                let t = old(self).task(c);
                &&& ((fd >= t.inner.fd_table@.len() || t.inner.fd_table@[fd as int] is None) <==> r
                    == -1)
                &&& (r == 0 ==> final(self).task(c).inner.fd_table@ == t.inner.fd_table@.update(
                    fd as int,
                    None,
                ))
                &&& (r == -1 ==> final(self).pipes@ == old(self).pipes@)
                // closing a write end gives it back to its ring; any other
                // descriptor leaves the rings alone
                &&& (r == 0 ==> (match t.inner.fd_table@[fd as int] {
                    Some(FdEntry::PipeEnd(p)) => if p.writable {
                        &&& final(self).pipes@.len() == old(self).pipes@.len()
                        &&& (forall|b: int|
                            0 <= b < old(self).pipes@.len() && b != p.buffer_id as int
                                ==> #[trigger] final(self).pipes@[b] == old(self).pipes@[b])
                        &&& final(self).pipes@[p.buffer_id as int].view() == old(self).pipes@[
                        p.buffer_id as int].view()
                        &&& final(self).pipes@[p.buffer_id as int].write_ends == (if old(self).pipes@[p.buffer_id as int].write_ends > 0 {
                            old(self).pipes@[p.buffer_id as int].write_ends - 1
                        } else {
                            0int
                        })
                    } else {
                        final(self).pipes@ == old(self).pipes@
                    },
                    _ => final(self).pipes@ == old(self).pipes@,
                }))
            }),
    {
        let c = match self.processor.current {
            Some(c) => c,
            None => {
                proof {
                    assert(false);
                }
                vstd::pervasive::unreached()
            },
        };
        let ghost pre = *self;
        proof {
            assert(pre.task_wf(c as int));
        }
        let mut t = match self.tasks[c].take() {
            Some(t) => t,
            None => {
                proof {
                    assert(false);
                }
                vstd::pervasive::unreached()
            },
        };
        proof {
            assert(t == pre.task(c as int));
        }
        if fd >= t.inner.fd_table.len() {
            self.tasks[c] = Some(t);
            proof {
                assert(self.tasks@ =~= pre.tasks@);
                self.lemma_one_task_fds_updated(pre, c as int);
            }
            return -1;
        }
        let entry = t.inner.fd_table[fd];
        match entry {
            None => {
                self.tasks[c] = Some(t);
                proof {
                    assert(self.tasks@ =~= pre.tasks@);
                    self.lemma_one_task_fds_updated(pre, c as int);
                }
                -1
            },
            Some(e) => {
                t.inner.fd_table[fd] = None;
                self.tasks[c] = Some(t);
                // the model has one write end per pipe: closing it ends the stream
                match e {
                    FdEntry::PipeEnd(p) => {
                        if p.writable {
                            proof {
                                assert(pre.task_wf(c as int));
                                assert(p.buffer_id < pre.pipes@.len());
                            }
                            let bid = p.buffer_id;
                            self.pipes[bid].close_write_end();
                        }
                    },
                    _ => {},
                }
                proof {
                    let post = *self;
                    assert forall|i: int| 0 <= i < post.pipes@.len() implies (
                    #[trigger] post.pipes@[i]).wf() by {
                        if post.pipes@[i] != pre.pipes@[i] {
                        }
                    }
                    assert forall|fd2: int|
                        0 <= fd2 < post.task(c as int).inner.fd_table@.len() implies match
                    #[trigger] post.task(c as int).inner.fd_table@[fd2] {
                        Some(FdEntry::PipeEnd(pp)) => pp.buffer_id < post.pipes@.len(),
                        _ => true,
                    } by {
                        if fd2 != fd as int {
                            assert(post.task(c as int).inner.fd_table@[fd2] == pre.task(
                                c as int,
                            ).inner.fd_table@[fd2]);
                        }
                    }
                    post.lemma_one_task_fds_updated(pre, c as int);
                }
                0
            },
        }
    }

    /// Duplicate descriptor `fd` of the running task into its lowest free
    /// slot, sharing the file object; -1 for a missing descriptor.
    pub fn sys_dup(&mut self, fd: usize) -> (r: isize)
        requires
            old(self).wf(),
            old(self).processor.current is Some,
            old(self).task(
                old(self).processor.current->Some_0 as int,
            ).inner.fd_table@.len() < usize::MAX / 2,
        ensures
            final(self).wf(),
            final(self).processor == old(self).processor,
            final(self).ready_queue == old(self).ready_queue,
            ({
                let c = old(self).processor.current->Some_0 as int;
                let t = old(self).task(c);
                &&& ((fd >= t.inner.fd_table@.len() || t.inner.fd_table@[fd as int] is None) <==> r
                    == -1)
                &&& (r == -1 ==> final(self).pipes@ == old(self).pipes@)
                &&& (r >= 0 ==> {
                    &&& final(self).task(c).inner.fd_table@[r as int] == t.inner.fd_table@[fd as int]
                    &&& (r as int == t.inner.fd_table@.len() || t.inner.fd_table@[r as int] is None)
                    // every other slot keeps its entry
                    &&& (forall|fd2: int|
                        0 <= fd2 < t.inner.fd_table@.len() && fd2 != r
                            ==> #[trigger] final(self).task(c).inner.fd_table@[fd2]
                            == t.inner.fd_table@[fd2])
                    &&& final(self).task(c).inner.fd_table@.len() == (if (r as int)
                        < t.inner.fd_table@.len() {
                        t.inner.fd_table@.len() as int
                    } else {
                        t.inner.fd_table@.len() as int + 1
                    })
                    // a duplicated write end joins its ring's count
                    &&& (match t.inner.fd_table@[fd as int] {
                        Some(FdEntry::PipeEnd(p)) => if p.writable {
                            &&& final(self).pipes@.len() == old(self).pipes@.len()
                            &&& (forall|b: int|
                                0 <= b < old(self).pipes@.len() && b != p.buffer_id as int
                                    ==> #[trigger] final(self).pipes@[b] == old(self).pipes@[b])
                            &&& final(self).pipes@[p.buffer_id as int].view() == old(self).pipes@[
                            p.buffer_id as int].view()
                            &&& final(self).pipes@[p.buffer_id as int].write_ends == (if old(self).pipes@[p.buffer_id as int].write_ends < usize::MAX {
                                old(self).pipes@[p.buffer_id as int].write_ends + 1
                            } else {
                                old(self).pipes@[p.buffer_id as int].write_ends as int
                            })
                        } else {
                            final(self).pipes@ == old(self).pipes@
                        },
                        _ => final(self).pipes@ == old(self).pipes@,
                    })
                })
            }),
    {
        let c = match self.processor.current {
            Some(c) => c,
            None => {
                proof {
                    assert(false);
                }
                vstd::pervasive::unreached()
            },
        };
        let ghost pre = *self;
        proof {
            assert(pre.task_wf(c as int));
        }
        let mut t = match self.tasks[c].take() {
            Some(t) => t,
            None => {
                proof {
                    assert(false);
                }
                vstd::pervasive::unreached()
            },
        };
        proof {
            assert(t == pre.task(c as int));
        }
        if fd >= t.inner.fd_table.len() {
            self.tasks[c] = Some(t);
            proof {
                assert(self.tasks@ =~= pre.tasks@);
                self.lemma_one_task_fds_updated(pre, c as int);
            }
            return -1;
        }
        let entry = t.inner.fd_table[fd];
        match entry {
            None => {
                self.tasks[c] = Some(t);
                proof {
                    assert(self.tasks@ =~= pre.tasks@);
                    self.lemma_one_task_fds_updated(pre, c as int);
                }
                -1
            },
            Some(e) => {
                let new_fd = t.inner.alloc_fd();
                t.inner.fd_table[new_fd] = Some(e);
                self.tasks[c] = Some(t);
                match e {
                    FdEntry::PipeEnd(p) => {
                        if p.writable {
                            proof {
                                assert(pre.task_wf(c as int));
                                assert(p.buffer_id < pre.pipes@.len());
                            }
                            self.pipes[p.buffer_id].set_write_end();
                        }
                    },
                    _ => {},
                }
                proof {
                    assert forall|b: int| 0 <= b < self.pipes@.len() implies (
                    #[trigger] self.pipes@[b]).wf() by {
                        if self.pipes@[b] == pre.pipes@[b] {
                        }
                    }
                }
                proof {
                    let post = *self;
                    assert forall|fd2: int|
                        0 <= fd2 < post.task(c as int).inner.fd_table@.len() implies match
                    #[trigger] post.task(c as int).inner.fd_table@[fd2] {
                        Some(FdEntry::PipeEnd(pp)) => pp.buffer_id < post.pipes@.len(),
                        _ => true,
                    } by {
                        if fd2 != new_fd as int && fd2 < pre.task(
                            c as int,
                        ).inner.fd_table@.len() {
                            assert(post.task(c as int).inner.fd_table@[fd2] == pre.task(
                                c as int,
                            ).inner.fd_table@[fd2]);
                        } else if fd2 == new_fd as int {
                            assert(post.task(c as int).inner.fd_table@[fd2] == pre.task(
                                c as int,
                            ).inner.fd_table@[fd as int]);
                        }
                    }
                    post.lemma_one_task_fds_updated(pre, c as int);
                }
                new_fd as isize
            },
        }
    }

    /// Move the running task to the back of the ready queue: the voluntary
    /// suspension point of the cooperative kernel.
    pub fn suspend_current_and_run_next(&mut self)
        requires
            old(self).wf(),
            old(self).processor.current is Some,
        ensures
            final(self).wf(),
            final(self).processor.current is None,
            final(self).processor.idle_task_cx == old(self).processor.idle_task_cx,
            final(self).ready_queue@ == old(self).ready_queue@.push(
                old(self).processor.current->Some_0,
            ),
            final(self).live(old(self).processor.current->Some_0 as int),
            final(self).task(old(self).processor.current->Some_0 as int).inner.task_status
                == TaskStatus::Ready,
            final(self).time_ms == old(self).time_ms,
            final(self).console_out == old(self).console_out,
            final(self).pipes == old(self).pipes,
            final(self).tasks@.len() == old(self).tasks@.len(),
    {
        let c = match self.take_current_task() {
            Some(c) => c,
            None => {
                proof {
                    assert(false);
                }
                vstd::pervasive::unreached()
            },
        };
        let ghost pre = *self;
        let mut t = match self.tasks[c].take() {
            Some(t) => t,
            None => {
                proof {
                    assert(false);
                }
                vstd::pervasive::unreached()
            },
        };
        t.inner.task_status = TaskStatus::Ready;
        self.tasks[c] = Some(t);
        proof {
            assert(pre.task_wf(c as int));
            self.lemma_one_task_updated(pre, c as int);
        }
        self.add_task(c);
    }
}

} // verus!
