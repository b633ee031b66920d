//! Process identifiers and the per-PID kernel stack.
//!
//! PIDs are handed out by a recycling allocator and held through exclusive
//! handles: at most one live handle per number. The kernel stack of PID `p`
//! is a fixed window just below the trampoline in the kernel address space,
//! with a one-page guard gap between neighbours.

use vstd::prelude::*;

use crate::address::{VirtPageNum, PPN_LIMIT, VPN_LIMIT};
use crate::config::{kernel_stack_position, KERNEL_STACK_SIZE, PAGE_SIZE, TRAMPOLINE};
use crate::frame_allocator::StackFrameAllocator;
use crate::memory_set::{MapPermission, MemorySet, MAP_PERM_R, MAP_PERM_W};

verus! {

/// Exclusive ownership of one process identifier.
#[derive(PartialEq, Eq, Structural, Debug)]
pub struct PidHandle(pub usize);

/// Hands out the smallest never-used PID, preferring recycled ones.
pub struct PidAllocator {
    pub current: usize,
    pub recycled: Vec<usize>,
}

impl PidAllocator {
    pub open spec fn wf(self) -> bool {
        &&& forall|i: int|
            0 <= i < self.recycled@.len() ==> #[trigger] self.recycled@[i] < self.current
        &&& forall|i: int, j: int|
            0 <= i < j < self.recycled@.len() ==> self.recycled@[i] != self.recycled@[j]
    }

    /// The PIDs handed out and not yet returned.
    pub open spec fn outstanding(self) -> Set<usize> {
        Set::new(|p: usize| p < self.current && !self.recycled@.contains(p))
    }

    pub fn new() -> (r: PidAllocator)
        ensures
            r.wf(),
            r.outstanding() === Set::empty(),
            r.current == 0,
    {
        let r = PidAllocator { current: 0, recycled: Vec::new() };
        proof {
            assert(r.outstanding() =~= Set::empty());
        }
        r
    }

    /// Hand out a PID no live handle carries.
    pub fn allocate(&mut self) -> (r: PidHandle)
        requires
            old(self).wf(),
            old(self).current < usize::MAX,
        ensures
            final(self).wf(),
            !old(self).outstanding().contains(r.0),
            final(self).outstanding() === old(self).outstanding().insert(r.0),
            final(self).current >= old(self).current,
            final(self).current <= old(self).current + 1,
            r.0 <= old(self).current,
            r.0 < final(self).current,
            final(self).current == old(self).current + 1 ==> r.0 == old(self).current,
            final(self).current == old(self).current ==> r.0 < old(self).current,
            // recycled numbers are preferred; the frontier moves only when
            // none is free
            old(self).recycled@.len() > 0 ==> final(self).current == old(self).current && r.0
                == old(self).recycled@.last() && final(self).recycled@ == old(self).recycled@.drop_last(),
            old(self).recycled@.len() == 0 ==> r.0 == old(self).current && final(self).current
                == old(self).current + 1 && final(self).recycled@ == old(self).recycled@,
    {
        let popped = self.recycled.pop();
        match popped {
            Some(pid) => {
                proof {
                    assert(old(self).recycled@.contains(pid)) by {
                        assert(old(self).recycled@.last() == pid);
                    }
                    assert(final(self).outstanding() =~= old(self).outstanding().insert(pid)) by {
                        assert forall|p: usize| old(self).outstanding().insert(pid).contains(p)
                            implies final(self).outstanding().contains(p) by {
                            if p != pid {
                                assert(old(self).recycled@.drop_last().contains(p) ==> old(self).recycled@.contains(p));
                            } else {
                                assert(!self.recycled@.contains(pid));
                            }
                        }
                        assert forall|p: usize| final(self).outstanding().contains(p) implies old(self).outstanding().insert(pid).contains(p) by {
                            if p != pid && old(self).recycled@.contains(p) {
                                let i = choose|i: int|
                                    0 <= i < old(self).recycled@.len() && old(self).recycled@[i]
                                        == p;
                                assert(i < old(self).recycled@.len() - 1);
                                assert(self.recycled@[i] == p);
                            }
                        }
                    }
                }
                PidHandle(pid)
            },
            None => {
                let pid = self.current;
                self.current = self.current + 1;
                proof {
                    assert(final(self).outstanding() =~= old(self).outstanding().insert(pid));
                }
                PidHandle(pid)
            },
        }
    }

    /// Take back the number of a dropped handle. Returning a number that is
    /// not outstanding is excluded by contract: the kernel halts on a double
    /// free rather than aliasing PIDs.
    pub fn dealloc(&mut self, pid: usize)
        requires
            old(self).wf(),
            old(self).outstanding().contains(pid),
        ensures
            final(self).wf(),
            final(self).outstanding() === old(self).outstanding().remove(pid),
            final(self).current == old(self).current,
    {
        self.recycled.push(pid);
        proof {
            let s_old = old(self).recycled@;
            let s_new = self.recycled@;
            assert forall|p: usize| s_new.contains(p) implies (s_old.contains(p) || p == pid) by {
                let i = choose|i: int| 0 <= i < s_new.len() && s_new[i] == p;
                if i < s_old.len() {
                    assert(s_old[i] == p);
                }
            }
            assert forall|p: usize| s_old.contains(p) implies s_new.contains(p) by {
                let i = choose|i: int| 0 <= i < s_old.len() && s_old[i] == p;
                assert(s_new[i] == p);
            }
            assert(s_new.contains(pid)) by {
                assert(s_new[s_old.len() as int] == pid);
            }
            assert(final(self).outstanding() =~= old(self).outstanding().remove(pid));
        }
    }
}

/// Hand out one PID from the given allocator.
pub fn pid_alloc(allocator: &mut PidAllocator) -> (r: PidHandle)
    requires
        old(allocator).wf(),
        old(allocator).current < usize::MAX,
    ensures
        final(allocator).wf(),
        !old(allocator).outstanding().contains(r.0),
        final(allocator).outstanding() === old(allocator).outstanding().insert(r.0),
{
    allocator.allocate()
}

/// The kernel stack of one PID, a framed window in the kernel address space.
#[derive(PartialEq, Eq, Structural, Debug)]
pub struct KernelStack {
    pub pid: usize,
}

/// The first virtual page of the stack window of `pid`: byte addresses
/// truncate to 27-bit virtual page numbers.
pub open spec fn kernel_stack_bottom_vpn(pid: usize) -> int {
    (((TRAMPOLINE - pid * (KERNEL_STACK_SIZE + PAGE_SIZE) - PAGE_SIZE - KERNEL_STACK_SIZE) as int)
        / (PAGE_SIZE as int)) % (VPN_LIMIT as int)
}

/// Pages in one kernel stack window.
pub open spec fn kernel_stack_pages() -> int {
    (KERNEL_STACK_SIZE as int) / (PAGE_SIZE as int)
}

impl KernelStack {
    /// Map the stack window of `pid_handle` into the kernel space.
    pub fn new(
        pid_handle: &PidHandle,
        kernel_space: &mut MemorySet,
        allocator: &mut StackFrameAllocator,
    ) -> (r: KernelStack)
        requires
            old(kernel_space).wf(),
            old(allocator).wf(),
            old(kernel_space).owns(*old(allocator)),
            pid_handle.0 * (KERNEL_STACK_SIZE + PAGE_SIZE) + KERNEL_STACK_SIZE + PAGE_SIZE
                <= TRAMPOLINE,
            kernel_stack_bottom_vpn(pid_handle.0) + kernel_stack_pages()
                <= crate::memory_set::TRAMPOLINE_VPN,
            forall|v: nat|
                kernel_stack_bottom_vpn(pid_handle.0) <= v < kernel_stack_bottom_vpn(pid_handle.0)
                    + kernel_stack_pages() ==> !old(kernel_space).some_area_contains(v),
            old(allocator).free_count() >= 3 * kernel_stack_pages(),
            old(allocator).end as u64 <= PPN_LIMIT,
        ensures
            final(kernel_space).wf(),
            final(allocator).wf(),
            final(kernel_space).owns(*final(allocator)),
            r.pid == pid_handle.0,
            final(kernel_space).areas@.len() == old(kernel_space).areas@.len() + 1,
            final(kernel_space).areas@.last().start_vpn == kernel_stack_bottom_vpn(pid_handle.0),
            final(kernel_space).areas@.last().end_vpn == kernel_stack_bottom_vpn(pid_handle.0)
                + kernel_stack_pages(),
            final(kernel_space).areas@.last().map_type == crate::memory_set::MapType::Framed,
            final(kernel_space).areas@.last().map_perm.bits == MAP_PERM_R | MAP_PERM_W,
            final(allocator).start == old(allocator).start,
            final(allocator).end == old(allocator).end,
            old(allocator).outstanding().subset_of(final(allocator).outstanding()),
    {
        let (bottom, _top) = kernel_stack_position(pid_handle.0);
        let svpn: usize = (bottom / PAGE_SIZE) % VPN_LIMIT;
        let evpn: usize = svpn + KERNEL_STACK_SIZE / PAGE_SIZE;
        kernel_space.insert_framed_area(
            allocator,
            VirtPageNum(svpn),
            VirtPageNum(evpn),
            MapPermission { bits: MAP_PERM_R | MAP_PERM_W },
        );
        KernelStack { pid: pid_handle.0 }
    }

    /// The highest address of this stack.
    pub fn get_top(&self) -> (r: usize)
        requires
            self.pid * (KERNEL_STACK_SIZE + PAGE_SIZE) + KERNEL_STACK_SIZE + PAGE_SIZE
                <= TRAMPOLINE,
        ensures
            r == TRAMPOLINE - self.pid * (KERNEL_STACK_SIZE + PAGE_SIZE) - PAGE_SIZE,
    {
        let (_bottom, top) = kernel_stack_position(self.pid);
        top
    }

    /// Unmap the stack window, called when the owning task is reaped.
    pub fn release(self, kernel_space: &mut MemorySet, allocator: &mut StackFrameAllocator)
        requires
            old(kernel_space).wf(),
            old(allocator).wf(),
            old(kernel_space).owns(*old(allocator)),
            self.pid * (KERNEL_STACK_SIZE + PAGE_SIZE) + KERNEL_STACK_SIZE + PAGE_SIZE
                <= TRAMPOLINE,
            forall|i: int|
                0 <= i < old(kernel_space).areas@.len() ==> (
                #[trigger] old(kernel_space).areas@[i]).map_type
                    == crate::memory_set::MapType::Framed && old(kernel_space).areas@[i].start_vpn
                    < old(kernel_space).areas@[i].end_vpn,
        ensures
            final(kernel_space).wf(),
            final(allocator).wf(),
            final(kernel_space).owns(*final(allocator)),
            final(allocator).start == old(allocator).start,
            final(allocator).end == old(allocator).end,
            // the stack window is gone
            forall|i: int|
                0 <= i < final(kernel_space).areas@.len() ==> (
                #[trigger] final(kernel_space).areas@[i]).start_vpn != kernel_stack_bottom_vpn(
                    self.pid,
                ),
            // and its frames are back in the pool
            (exists|i: int|
                0 <= i < old(kernel_space).areas@.len() && (
                #[trigger] old(kernel_space).areas@[i]).start_vpn == kernel_stack_bottom_vpn(
                    self.pid,
                )) ==> (exists|i: int|
                {
                    &&& 0 <= i < old(kernel_space).areas@.len()
                    &&& (#[trigger] old(kernel_space).areas@[i]).start_vpn
                        == kernel_stack_bottom_vpn(self.pid)
                    &&& final(kernel_space).areas@.len() == old(kernel_space).areas@.len() - 1
                    &&& forall|j: int|
                        0 <= j < old(kernel_space).areas@[i].data_frames@.len()
                            ==> !final(allocator).outstanding().contains(
                            (#[trigger] old(kernel_space).areas@[i].data_frames@[j]).ppn,
                        )
                }),
    {
        let (bottom, _top) = kernel_stack_position(self.pid);
        let svpn: usize = (bottom / PAGE_SIZE) % VPN_LIMIT;
        let ghost pre_ks = *kernel_space;
        kernel_space.remove_area_with_start_vpn(allocator, VirtPageNum(svpn));
        proof {
            let s = kernel_stack_bottom_vpn(self.pid);
            if exists|i: int|
                0 <= i < pre_ks.areas@.len() && (#[trigger] pre_ks.areas@[i]).start_vpn == s {
                let i = choose|i: int|
                    {
                        &&& 0 <= i < pre_ks.areas@.len()
                        &&& (#[trigger] pre_ks.areas@[i]).start_vpn == s
                        &&& final(kernel_space).areas@ == pre_ks.areas@.remove(i)
                        &&& forall|j: int|
                            0 <= j < pre_ks.areas@[i].data_frames@.len()
                                ==> !final(allocator).outstanding().contains(
                                (#[trigger] pre_ks.areas@[i].data_frames@[j]).ppn,
                            )
                    };
                // no other area starts at the same page: two non-empty areas
                // with one start would overlap
                assert forall|k: int|
                    0 <= k < kernel_space.areas@.len() implies (
                #[trigger] kernel_space.areas@[k]).start_vpn != s by {
                    let ok = if k < i {
                        k
                    } else {
                        k + 1
                    };
                    assert(kernel_space.areas@[k] == pre_ks.areas@[ok]);
                    if pre_ks.areas@[ok].start_vpn == s {
                        assert(pre_ks.areas@[ok].contains_vpn(s as nat));
                        assert(pre_ks.areas@[i].contains_vpn(s as nat));
                        assert(false);
                    }
                }
            }
        }
    }
}

} // verus!
