use rvcore::address::{PhysPageNum, VirtAddr, VirtPageNum};
use rvcore::config::kernel_stack_position;
use rvcore::frame_allocator::StackFrameAllocator;
use rvcore::kernel::Kernel;
use rvcore::loader::{ProgramImage, Segment};
use rvcore::memory_set::{MapPermission, MemorySet};
use rvcore::page_table::{PTEFlags, PageTable, PTE_V};
use rvcore::pid::PidAllocator;
use rvcore::pipe::{pipe_read_pass, pipe_write_pass, PipeRingBuffer};
use rvcore::kernel::{TrapAction, TrapCause};
use rvcore::layout::{BlockStore, DiskInode, DiskInodeType};
use rvcore::signal::{SignalFlags, SIGCONT, SIGKILL, SIGSEGV, SIGSTOP};
use rvcore::task::TaskStatus;

fn small_program() -> ProgramImage {
    ProgramImage {
        entry: 16 * 4096,
        segments: vec![Segment {
            start_vpn: 16,
            end_vpn: 17,
            perm: 0x02 | 0x04 | 0x08 | 0x10,
            data: b"Hello, world!\n".to_vec(),
        }],
    }
}

#[test]
fn frame_allocator_hands_out_distinct_frames() {
    let mut fa = StackFrameAllocator::new();
    fa.init(PhysPageNum(100), PhysPageNum(200));
    let a = fa.allocate().unwrap().ppn.0;
    let b = fa.allocate().unwrap().ppn.0;
    let c = fa.allocate().unwrap().ppn.0;
    assert_ne!(a, b);
    assert_ne!(b, c);
    assert_ne!(a, c);
    fa.dealloc(PhysPageNum(b));
    let d = fa.allocate().unwrap().ppn.0;
    assert_eq!(d, b);
    let e = fa.allocate().unwrap().ppn.0;
    assert_ne!(e, a);
    assert_ne!(e, c);
    assert_ne!(e, d);
}

#[test]
fn pid_allocator_recycles() {
    let mut pa = PidAllocator::new();
    let p0 = pa.allocate();
    let p1 = pa.allocate();
    assert_eq!(p0.0, 0);
    assert_eq!(p1.0, 1);
    pa.dealloc(0);
    let p2 = pa.allocate();
    assert_eq!(p2.0, 0);
}

#[test]
fn map_then_translate_roundtrip() {
    let mut fa = StackFrameAllocator::new();
    fa.init(PhysPageNum(1000), PhysPageNum(2000));
    let mut pt = PageTable::new(&mut fa);
    let vpn = VirtPageNum(0x12345);
    pt.map(&mut fa, vpn, PhysPageNum(777), PTEFlags::from_bits(0x06));
    let pte = pt.translate(vpn).unwrap();
    assert!(pte.is_valid());
    assert_eq!(pte.ppn().0, 777);
    assert_eq!(pte.flags().bits, 0x06 | PTE_V);
    // another page is untouched
    assert!(pt.translate(VirtPageNum(0x12346)).is_none() ||
        !pt.translate(VirtPageNum(0x12346)).unwrap().is_valid());
    pt.unmap(vpn);
    let pte2 = pt.translate(vpn).unwrap();
    assert!(!pte2.is_valid());
}

#[test]
fn address_space_clone_shares_bytes_then_diverges() {
    let mut fa = StackFrameAllocator::new();
    fa.init(PhysPageNum(1000), PhysPageNum(5000));
    let mut src = MemorySet::new_bare(&mut fa);
    src.insert_framed_area(
        &mut fa,
        VirtPageNum(16),
        VirtPageNum(18),
        MapPermission::from_bits(0x06),
    );
    let va = 16 * 4096 + 123;
    assert!(src.write_byte(va, 0xAB));
    let child = MemorySet::from_existed_user(&src, &mut fa);
    assert_eq!(child.read_byte(va), Some(0xAB));
    assert_eq!(child.read_byte(va + 1), Some(0));
    // writes diverge after the copy
    let mut child = child;
    assert!(child.write_byte(va, 0xCD));
    assert_eq!(child.read_byte(va), Some(0xCD));
    assert_eq!(src.read_byte(va), Some(0xAB));
}

#[test]
fn pipe_carries_all_bytes_in_order() {
    // write 0..=255 through a 32-byte ring with a concurrent-style reader
    let mut rb = PipeRingBuffer::new();
    rb.set_write_end();
    let mut fa = StackFrameAllocator::new();
    fa.init(PhysPageNum(1000), PhysPageNum(3000));
    let mut ms = MemorySet::new_bare(&mut fa);
    ms.insert_framed_area(
        &mut fa,
        VirtPageNum(16),
        VirtPageNum(18),
        MapPermission::from_bits(0x06),
    );
    let src_va = 16 * 4096;
    let dst_va = 17 * 4096;
    for i in 0..=255u8 {
        ms.write_byte(src_va + i as usize, i);
    }
    let mut written = 0usize;
    let mut read = 0usize;
    while read < 256 {
        if written < 256 {
            let io = pipe_write_pass(&mut rb, &ms, src_va + written, 256 - written);
            written += io.transferred;
        }
        let io = pipe_read_pass(&mut rb, &mut ms, dst_va + read, 256 - read);
        read += io.transferred;
    }
    for i in 0..=255u8 {
        assert_eq!(ms.read_byte(dst_va + i as usize), Some(i));
    }
}

#[test]
fn pipe_reader_sees_end_of_stream_when_writers_close() {
    let mut rb = PipeRingBuffer::new();
    rb.set_write_end();
    rb.write_byte(7);
    rb.close_write_end();
    let mut fa = StackFrameAllocator::new();
    fa.init(PhysPageNum(1000), PhysPageNum(2000));
    let mut ms = MemorySet::new_bare(&mut fa);
    ms.insert_framed_area(
        &mut fa,
        VirtPageNum(16),
        VirtPageNum(17),
        MapPermission::from_bits(0x06),
    );
    let io = pipe_read_pass(&mut rb, &mut ms, 16 * 4096, 8);
    assert_eq!(io.transferred, 1);
    assert!(!io.again);
    let io2 = pipe_read_pass(&mut rb, &mut ms, 16 * 4096 + 1, 8);
    assert_eq!(io2.transferred, 0);
    assert!(!io2.again);
}

#[test]
fn fork_then_waitpid_returns_child_exit_code() {
    let mut k = Kernel::new(4096, 65536, vec![small_program()]);
    k.add_initproc();
    // run init
    let p = k.run_tasks_step().unwrap();
    assert_eq!(p, 0);
    // init forks
    let child = k.sys_fork();
    assert!(child > 0);
    let child = child as usize;
    // parent suspends; child runs and exits with code 42
    k.suspend_current_and_run_next();
    let q = k.run_tasks_step().unwrap();
    assert_eq!(q, child);
    k.exit_current_and_run_next(42);
    // parent runs again and reaps
    let r = k.run_tasks_step().unwrap();
    assert_eq!(r, 0);
    // the exit code lands inside the parent's user stack
    let sp = k.current_trap_cx().x[2];
    let code_ptr = sp - 16;
    let got = k.sys_waitpid(child as isize, code_ptr);
    assert_eq!(got, child as isize);
    let cur = k.current_task().unwrap();
    assert_eq!(cur, 0);
}

#[test]
fn waitpid_reports_no_child_and_live_child() {
    let mut k = Kernel::new(4096, 65536, vec![small_program()]);
    k.add_initproc();
    k.run_tasks_step().unwrap();
    // no children yet
    assert_eq!(k.sys_waitpid(-1, 8 * 4096), -1);
    let child = k.sys_fork();
    assert!(child > 0);
    // child exists but has not exited
    assert_eq!(k.sys_waitpid(child, 8 * 4096), -2);
}

#[test]
fn fork_child_sees_parent_memory_and_returns_zero() {
    let mut k = Kernel::new(4096, 65536, vec![small_program()]);
    k.add_initproc();
    k.run_tasks_step().unwrap();
    let child = k.sys_fork() as usize;
    k.suspend_current_and_run_next();
    let q = k.run_tasks_step().unwrap();
    assert_eq!(q, child);
    // the child's saved registers equal the parent's, except x10 is 0
    assert_eq!(k.current_trap_cx().x[10], 0);
    // and its memory holds the loaded image
    let text = k.current_task().unwrap();
    assert_eq!(text, child);
}

#[test]
fn signal_check_error_reports_segfault() {
    let mut flags = SignalFlags::empty();
    flags.insert(SignalFlags::from_bits(SIGSEGV));
    let (errno, msg) = flags.check_error().unwrap();
    assert_eq!(errno, -11);
    assert!(msg.contains("SIGSEGV"));
    assert!(SignalFlags::empty().check_error().is_none());
}

#[test]
fn kernel_stacks_hang_below_the_trampoline() {
    let trampoline = usize::MAX - 4096 + 1;
    let (b0, t0) = kernel_stack_position(0);
    let (b1, t1) = kernel_stack_position(1);
    assert_eq!(t0 - b0, 8192);
    assert_eq!(t1 - b1, 8192);
    // a one-page guard above every stack, the first included
    assert_eq!(t0, trampoline - 4096);
    assert_eq!(b0, trampoline - (8192 + 4096));
    assert_eq!(t1, trampoline - (8192 + 4096) - 4096);
    assert_eq!(b0 - t1, 4096);
}

#[test]
fn waitpid_delivers_exit_code_bytes() {
    let mut k = Kernel::new(4096, 65536, vec![small_program()]);
    k.add_initproc();
    k.run_tasks_step().unwrap();
    let child = k.sys_fork();
    k.suspend_current_and_run_next();
    let q = k.run_tasks_step().unwrap();
    assert_eq!(q as isize, child);
    k.exit_current_and_run_next(-7);
    k.run_tasks_step().unwrap();
    let sp = k.current_trap_cx().x[2];
    let code_ptr = sp - 16;
    let got = k.sys_waitpid(child, code_ptr);
    assert_eq!(got, child);
    // the four little-endian bytes of -7 stand in the parent's memory
    let ms = &k.tasks[0].as_ref().unwrap().inner.memory_set;
    let bytes = [
        ms.read_byte(code_ptr).unwrap(),
        ms.read_byte(code_ptr + 1).unwrap(),
        ms.read_byte(code_ptr + 2).unwrap(),
        ms.read_byte(code_ptr + 3).unwrap(),
    ];
    assert_eq!(i32::from_le_bytes(bytes), -7);
}

#[test]
fn sys_write_reaches_the_console() {
    let mut k = Kernel::new(4096, 65536, vec![small_program()]);
    k.add_initproc();
    k.run_tasks_step().unwrap();
    // the loaded image holds the greeting at its first byte
    let r = k.sys_write(1, 16 * 4096, 14);
    assert_eq!(r, 14);
    assert_eq!(k.console_out.as_slice(), b"Hello, world!\n".as_slice());
    // fd 0 is not writable, a missing fd neither
    assert_eq!(k.sys_write(0, 16 * 4096, 1), -1);
    assert_eq!(k.sys_write(9, 16 * 4096, 1), -1);
}

#[test]
fn exec_replaces_the_image_and_pushes_argv() {
    let mut k = Kernel::new(4096, 65536, vec![small_program()]);
    k.add_initproc();
    k.run_tasks_step().unwrap();
    assert_eq!(k.sys_exec(3, Vec::new()), -1);
    let r = k.sys_exec(0, vec![b"prog".to_vec(), b"-x".to_vec()]);
    assert_eq!(r, 0);
    let cx = k.current_trap_cx();
    assert_eq!(cx.sepc, 16 * 4096);
    assert_eq!(cx.x[10], 2);
    let usp0 = (17 + 1 + 2) * 4096;
    let base = usp0 - 8 * 3;
    assert_eq!(cx.x[11], base);
    let ms = &k.tasks[0].as_ref().unwrap().inner.memory_set;
    // first argument string, NUL-terminated, just below the table
    let a0 = base - 5;
    assert_eq!(ms.read_byte(a0).unwrap(), b'p');
    assert_eq!(ms.read_byte(a0 + 3).unwrap(), b'g');
    assert_eq!(ms.read_byte(a0 + 4).unwrap(), 0);
    // the pointer table names it
    let mut ptr0 = [0u8; 8];
    for j in 0..8 {
        ptr0[j] = ms.read_byte(base + j).unwrap();
    }
    assert_eq!(u64::from_le_bytes(ptr0), a0 as u64);
    // and ends with the zero terminator
    let mut ptr2 = [0u8; 8];
    for j in 0..8 {
        ptr2[j] = ms.read_byte(base + 16 + j).unwrap();
    }
    assert_eq!(u64::from_le_bytes(ptr2), 0);
}

#[test]
fn faults_become_signals_and_fatal_errnos() {
    let mut k = Kernel::new(4096, 65536, vec![small_program()]);
    k.add_initproc();
    k.run_tasks_step().unwrap();
    let act = k.trap_dispatch(TrapCause::StorePageFault);
    assert_eq!(act, TrapAction::FaultSignalled);
    let (errno, msg) = k.check_signals_error_of_current().unwrap();
    assert_eq!(errno, -11);
    assert!(msg.contains("SIGSEGV"));
    // the signal pass leaves the fatal signal for the trap path, which
    // then tears the task down with the errno — here the offender is init,
    // so the kernel would shut down instead; fork a victim to observe it
    let suspend = k.handle_signals();
    assert!(!suspend);
    let child = k.sys_fork();
    k.suspend_current_and_run_next();
    let q = k.run_tasks_step().unwrap();
    assert_eq!(q as isize, child);
    k.trap_dispatch(TrapCause::LoadPageFault);
    let (errno2, _) = k.check_signals_error_of_current().unwrap();
    k.exit_current_and_run_next(errno2);
    assert!(k.tasks[child as usize].as_ref().unwrap().inner.is_zombie());
    assert_eq!(k.tasks[child as usize].as_ref().unwrap().inner.exit_code, -11);
}

#[test]
fn timer_preempts_and_advances_the_clock() {
    let mut k = Kernel::new(4096, 65536, vec![small_program()]);
    k.add_initproc();
    k.run_tasks_step().unwrap();
    let before = k.sys_get_time();
    let act = k.trap_dispatch(TrapCause::SupervisorTimer);
    assert_eq!(act, TrapAction::TimerPreempted);
    assert!(k.current_task().is_none());
    assert_eq!(k.sys_get_time(), before + 10);
    assert_eq!(k.ready_queue, vec![0]);
}

#[test]
fn pipe_descriptors_carry_bytes_between_tasks() {
    let mut k = Kernel::new(4096, 65536, vec![small_program()]);
    k.add_initproc();
    k.run_tasks_step().unwrap();
    // install the pipe; the two descriptor numbers land in user memory
    let ptr = 16 * 4096 + 256;
    assert_eq!(k.sys_pipe(ptr), 0);
    let ms = &k.tasks[0].as_ref().unwrap().inner.memory_set;
    let rfd = ms.read_byte(ptr).unwrap() as usize;
    let wfd = ms.read_byte(ptr + 8).unwrap() as usize;
    assert_ne!(rfd, wfd);
    // write the greeting into the pipe, read it back out
    let w = k.sys_write(wfd, 16 * 4096, 14);
    assert_eq!(w, 14);
    assert_eq!(k.pipes[0].view_len(), 14);
    // duplicating and closing descriptors
    let dup = k.sys_dup(rfd);
    assert!(dup >= 0);
    assert_eq!(k.sys_close(wfd), 0);
    assert_eq!(k.sys_close(wfd), -1);
    assert!(k.pipes[0].all_write_ends_closed());
}

#[test]
fn stream_ends_only_when_the_last_write_end_closes() {
    let mut k = Kernel::new(4096, 65536, vec![small_program()]);
    k.add_initproc();
    k.run_tasks_step().unwrap();
    let ptr = 16 * 4096 + 256;
    assert_eq!(k.sys_pipe(ptr), 0);
    let ms = &k.tasks[0].as_ref().unwrap().inner.memory_set;
    let wfd = ms.read_byte(ptr + 8).unwrap() as usize;
    // duplicate the write end: two live ends on the ring
    let wfd2 = k.sys_dup(wfd);
    assert!(wfd2 >= 0);
    assert_eq!(k.pipes[0].write_ends, 2);
    // closing one keeps the stream open
    assert_eq!(k.sys_close(wfd), 0);
    assert!(!k.pipes[0].all_write_ends_closed());
    // closing the last ends it
    assert_eq!(k.sys_close(wfd2 as usize), 0);
    assert!(k.pipes[0].all_write_ends_closed());
}

#[test]
fn forked_child_keeps_the_pipe_open_until_reaped() {
    let mut k = Kernel::new(4096, 65536, vec![small_program()]);
    k.add_initproc();
    k.run_tasks_step().unwrap();
    let ptr = 16 * 4096 + 256;
    assert_eq!(k.sys_pipe(ptr), 0);
    let ms = &k.tasks[0].as_ref().unwrap().inner.memory_set;
    let wfd = ms.read_byte(ptr + 8).unwrap() as usize;
    // the fork copies the table, so the child holds a second write end
    let child = k.sys_fork();
    assert_eq!(k.pipes[0].write_ends, 2);
    // the parent closes its end; the child's keeps the stream open
    assert_eq!(k.sys_close(wfd), 0);
    assert!(!k.pipes[0].all_write_ends_closed());
    // the child exits and is reaped; its table's end leaves the ring
    k.suspend_current_and_run_next();
    let q = k.run_tasks_step().unwrap();
    assert_eq!(q as isize, child);
    k.exit_current_and_run_next(0);
    k.run_tasks_step().unwrap();
    let sp = k.current_trap_cx().x[2];
    assert_eq!(k.sys_waitpid(child, sp - 16), child);
    assert!(k.pipes[0].all_write_ends_closed());
}

#[test]
fn sigkill_stays_pending_and_reports_its_errno() {
    let mut k = Kernel::new(4096, 65536, vec![small_program()]);
    k.add_initproc();
    k.run_tasks_step().unwrap();
    k.current_add_signal(SignalFlags::from_bits(SIGKILL));
    let suspend = k.handle_signals();
    assert!(!suspend);
    // the task is marked killed and the bit stays for the error check
    assert!(k.tasks[0].as_ref().unwrap().inner.killed);
    let (errno, msg) = k.check_signals_error_of_current().unwrap();
    assert_eq!(errno, -9);
    assert!(msg.contains("SIGKILL"));
}

#[test]
fn sigstop_freezes_until_sigcont() {
    let mut k = Kernel::new(4096, 65536, vec![small_program()]);
    k.add_initproc();
    k.run_tasks_step().unwrap();
    k.current_add_signal(SignalFlags::from_bits(SIGSTOP));
    assert!(k.handle_signals());
    // the trap path suspends the frozen task; rescheduled, it stays frozen
    // until SIGCONT thaws it
    k.suspend_current_and_run_next();
    let q = k.run_tasks_step().unwrap();
    assert_eq!(q, 0);
    assert!(k.tasks[0].as_ref().unwrap().inner.frozen);
    k.current_add_signal(SignalFlags::from_bits(SIGCONT));
    assert!(!k.handle_signals());
    assert!(!k.tasks[0].as_ref().unwrap().inner.frozen);
}

#[test]
fn inode_indexing_walks_the_three_ranges() {
    let mut blocks = Vec::new();
    for _ in 0..8 {
        blocks.push(vec![0u8; 512]);
    }
    // block 1 is the first-level indirect block, block 2 the second level,
    // block 3 a first-level block inside it
    blocks[1][0..4].copy_from_slice(&777u32.to_le_bytes());
    blocks[2][0..4].copy_from_slice(&3u32.to_le_bytes());
    blocks[3][4..8].copy_from_slice(&999u32.to_le_bytes());
    let store = BlockStore { blocks };
    let mut node = DiskInode {
        size: 0,
        direct: [0; 28],
        indirect1: 1,
        indirect2: 2,
        type_: DiskInodeType::File,
    };
    node.initialize(DiskInodeType::File);
    node.direct[5] = 55;
    node.indirect1 = 1;
    node.indirect2 = 2;
    assert_eq!(node.get_block_id(5, &store), 55);
    assert_eq!(node.get_block_id(28, &store), 777);
    assert_eq!(node.get_block_id(156 + 1, &store), 999);
}

#[test]
fn virtual_addresses_split_into_page_and_offset() {
    let va = VirtAddr(0x1234_5678);
    assert_eq!(va.floor().0, 0x12345);
    assert_eq!(va.page_offset(), 0x678);
    assert_eq!(va.ceil().0, 0x12346);
    let idx = VirtPageNum(0x12345).indexes();
    assert_eq!(idx[2], 0x145);
    assert_eq!((idx[0] << 18) | (idx[1] << 9) | idx[2], 0x12345);
}

#[test]
fn syscall_table_demultiplexes() {
    let mut k = Kernel::new(4096, 65536, vec![small_program()]);
    k.add_initproc();
    k.run_tasks_step().unwrap();
    // identifiers from the user ABI table
    assert_eq!(k.syscall(172, 0, 0, 0), 0); // getpid
    assert_eq!(k.syscall(169, 0, 0, 0), 0); // the clock at boot
    assert_eq!(k.syscall(64, 1, 16 * 4096, 14), 14); // write to stdout
    assert_eq!(k.console_out.as_slice(), b"Hello, world!\n".as_slice());
    let child = k.syscall(220, 0, 0, 0); // fork
    assert!(child > 0);
    assert_eq!(k.syscall(9999, 0, 0, 0), -1); // unknown identifier
    // yield, run the child, exit it, reap it through the table
    assert_eq!(k.syscall(124, 0, 0, 0), 0);
    let q = k.run_tasks_step().unwrap();
    assert_eq!(q as isize, child);
    assert_eq!(k.syscall(93, 5, 0, 0), 0); // exit with code 5
    k.run_tasks_step().unwrap();
    let sp = k.current_trap_cx().x[2];
    assert_eq!(k.syscall(260, child as usize, sp - 16, 0), child); // waitpid
    let ms = &k.tasks[0].as_ref().unwrap().inner.memory_set;
    assert_eq!(ms.read_byte(sp - 16).unwrap(), 5);
}
