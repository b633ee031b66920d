//! Building a user address space from a loaded program image.
//!
//! The ELF loader itself is an outside collaborator: it turns raw bytes into
//! a list of load segments and an entry point. This module takes that pure
//! description and produces the address space — segments, a guard-separated
//! user stack, the trap-context page and the trampoline.

use vstd::prelude::*;

use crate::address::{PPN_LIMIT, VPN_LIMIT};
use crate::config::{PAGE_SIZE, USER_STACK_SIZE};
use crate::frame_allocator::StackFrameAllocator;
use crate::memory_set::{
    MapPermission, MemorySet, TRAMPOLINE_VPN, TRAP_CONTEXT_VPN, MAP_PERM_R, MAP_PERM_W,
};

verus! {

/// The physical page of the kernel's trampoline text, identity-placed in the
/// kernel image and shared by every address space.
pub const STRAMPOLINE_PPN: usize = 0x80200;

/// User images and their stacks live below this virtual page.
pub const USER_SPACE_LIMIT_VPN: usize = 0x40000;

/// One loadable segment: a page range, its permission and its initial bytes
/// (zero-padded up to the range).
pub struct Segment {
    pub start_vpn: usize,
    pub end_vpn: usize,
    pub perm: u8,
    pub data: Vec<u8>,
}

impl Segment {
    pub open spec fn wf(self) -> bool {
        &&& self.start_vpn <= self.end_vpn
        &&& self.end_vpn < USER_SPACE_LIMIT_VPN
        &&& self.data@.len() <= (self.end_vpn - self.start_vpn) * PAGE_SIZE
    }
}

/// What the loader hands the kernel: an entry point and ascending, disjoint
/// load segments.
pub struct ProgramImage {
    pub entry: usize,
    pub segments: Vec<Segment>,
}

impl ProgramImage {
    pub open spec fn wf(self) -> bool {
        &&& forall|i: int| 0 <= i < self.segments@.len() ==> (#[trigger] self.segments@[i]).wf()
        &&& forall|i: int, j: int|
            0 <= i < j < self.segments@.len() ==> (#[trigger] self.segments@[i]).end_vpn <= (
            #[trigger] self.segments@[j]).start_vpn
    }

    /// The first page past the image.
    pub open spec fn spec_end(self) -> int {
        if self.segments@.len() == 0 {
            0
        } else {
            self.segments@.last().end_vpn as int
        }
    }

    /// Frames needed to build the space: three per page of every segment, of
    /// the stack and of the trap context, plus the root and the trampoline's
    /// table frames.
    pub open spec fn build_cost(self) -> int {
        3 * (self.spec_end() + (USER_STACK_SIZE / PAGE_SIZE) as int + 1) + 5
    }
}

/// The built space: the segments with their bytes, then one guard page, then
/// the user stack, and the trap context just below the trampoline.
pub fn build_user_space(prog: &ProgramImage, allocator: &mut StackFrameAllocator) -> (r: (
    MemorySet,
    usize,
    usize,
))
    requires
        prog.wf(),
        old(allocator).wf(),
        old(allocator).free_count() >= prog.build_cost(),
        old(allocator).end as u64 <= PPN_LIMIT,
    ensures
        final(allocator).wf(),
        r.0.wf(),
        r.0.owns(*final(allocator)),
        final(allocator).start == old(allocator).start,
        final(allocator).end == old(allocator).end,
        old(allocator).outstanding().subset_of(final(allocator).outstanding()),
        forall|p: usize|
            #[trigger] r.0.is_frame_of(p) ==> !old(allocator).outstanding().contains(p),
        r.0.trampoline_ppn == Some(STRAMPOLINE_PPN),
        // one area per segment, then the stack, then the trap context
        r.0.areas@.len() == prog.segments@.len() + 2,
        forall|i: int|
            0 <= i < r.0.areas@.len() ==> (#[trigger] r.0.areas@[i]).map_type
                == crate::memory_set::MapType::Framed,
        r.1 == (prog.spec_end() + 1 + (USER_STACK_SIZE / PAGE_SIZE) as int) * PAGE_SIZE,
        r.2 == prog.entry,
        // the loaded bytes are in place
        forall|i: int, off: int|
            0 <= i < prog.segments@.len() && 0 <= off < prog.segments@[i].data@.len()
                ==> #[trigger] r.0.byte_at(
                (prog.segments@[i].start_vpn * PAGE_SIZE + off) as nat,
            ) == Some(prog.segments@[i].data@[off]),
        // the user stack starts zeroed
        forall|off: int|
            0 <= off < USER_STACK_SIZE ==> #[trigger] r.0.byte_at(
                ((prog.spec_end() + 1) * PAGE_SIZE + off) as nat,
            ) == Some(0u8),
        // the trap context page is present
        r.0.some_area_contains(TRAP_CONTEXT_VPN as nat),
        r.0.byte_at((TRAP_CONTEXT_VPN * PAGE_SIZE) as nat) is Some,
{
    let mut space = MemorySet::new_bare(allocator);
    space.map_trampoline(allocator, STRAMPOLINE_PPN);
    let n = prog.segments.len();
    let mut i: usize = 0;
    let mut max_end: usize = 0;
    while i < n
        invariant
            prog.wf(),
            n == prog.segments@.len(),
            i <= n,
            space.wf(),
            allocator.wf(),
            space.owns(*allocator),
            allocator.start == old(allocator).start,
            allocator.end == old(allocator).end,
            allocator.end as u64 <= PPN_LIMIT,
            old(allocator).outstanding().subset_of(allocator.outstanding()),
            allocator.free_count() >= old(allocator).free_count() - 5 - 3 * (if i == 0 {
                0int
            } else {
                prog.segments@[i - 1].end_vpn as int
            }),
            old(allocator).free_count() >= prog.build_cost(),
            space.trampoline_ppn == Some(STRAMPOLINE_PPN),
            space.areas@.len() == i,
            forall|k: int|
                0 <= k < space.areas@.len() ==> (#[trigger] space.areas@[k]).map_type
                    == crate::memory_set::MapType::Framed,
            max_end == (if i == 0 {
                0int
            } else {
                prog.segments@[i - 1].end_vpn as int
            }),
            max_end < USER_SPACE_LIMIT_VPN,
            forall|p: usize|
                #[trigger] space.is_frame_of(p) ==> !old(allocator).outstanding().contains(p),
            forall|k: int|
                0 <= k < i ==> (#[trigger] space.areas@[k]).start_vpn
                    == prog.segments@[k].start_vpn && space.areas@[k].end_vpn
                    == prog.segments@[k].end_vpn,
            forall|k: int, off: int|
                0 <= k < i && 0 <= off < prog.segments@[k].data@.len() ==> #[trigger] space.byte_at(
                    (prog.segments@[k].start_vpn * PAGE_SIZE + off) as nat,
                ) == Some(prog.segments@[k].data@[off]),
        decreases n - i,
    {
        let seg = &prog.segments[i];
        proof {
            assert(seg.wf());
            assert forall|v: nat| seg.start_vpn <= v < seg.end_vpn implies !space.some_area_contains(
                v,
            ) by {
                if space.some_area_contains(v) {
                    let k = space.area_index_of(v);
                    assert(space.areas@[k].contains_vpn(v));
                    assert(prog.segments@[k].end_vpn <= prog.segments@[i as int].start_vpn);
                }
            }
            assert(3 * (seg.end_vpn - seg.start_vpn) <= 3 * (seg.end_vpn as int) - 3 * (
            max_end as int)) by (nonlinear_arith)
                requires
                    max_end <= seg.start_vpn,
                    seg.start_vpn <= seg.end_vpn,
            ;
            assert(3 * (prog.spec_end() + (USER_STACK_SIZE / PAGE_SIZE) as int + 1) + 5
                >= 3 * (seg.end_vpn as int) + 5) by {
                assert(seg.end_vpn <= prog.spec_end()) by {
                    if i as int != n - 1 {
                        assert(prog.segments@[i as int].end_vpn <= prog.segments@[n
                            - 1].start_vpn);
                        assert(prog.segments@[n - 1].wf());
                    }
                }
            }
        }
        let ghost pre_alloc = *allocator;
        let ghost pre_space = space;
        space.push_framed_area_with_data(
            allocator,
            seg.start_vpn,
            seg.end_vpn,
            MapPermission { bits: seg.perm },
            &seg.data,
        );
        proof {
            assert forall|p: usize| #[trigger] space.is_frame_of(p) implies !old(
                allocator,
            ).outstanding().contains(p) by {
                if !pre_space.is_frame_of(p) {
                    assert(!pre_alloc.outstanding().contains(p));
                }
            }
            assert forall|k: int, off: int|
                0 <= k < i + 1 && 0 <= off < prog.segments@[k].data@.len() implies
            #[trigger] space.byte_at((prog.segments@[k].start_vpn * PAGE_SIZE + off) as nat)
                == Some(prog.segments@[k].data@[off]) by {
                if k < i {
                    let va = (prog.segments@[k].start_vpn * PAGE_SIZE + off) as nat;
                    assert(va / (PAGE_SIZE as nat) < prog.segments@[k].end_vpn) by (
                    nonlinear_arith)
                        requires
                            va == prog.segments@[k].start_vpn * PAGE_SIZE + off,
                            0 <= off < prog.segments@[k].data@.len(),
                            prog.segments@[k].data@.len() <= (prog.segments@[k].end_vpn
                                - prog.segments@[k].start_vpn) * PAGE_SIZE,
                            PAGE_SIZE == 4096,
                            prog.segments@[k].start_vpn <= prog.segments@[k].end_vpn,
                    ;
                    assert(va / (PAGE_SIZE as nat) >= prog.segments@[k].start_vpn) by (
                    nonlinear_arith)
                        requires
                            va == prog.segments@[k].start_vpn * PAGE_SIZE + off,
                            off >= 0,
                            PAGE_SIZE == 4096,
                    ;
                    assert(prog.segments@[k].end_vpn <= prog.segments@[i as int].start_vpn);
                    assert(space.byte_at(va) == pre_space.byte_at(va));
                }
            }
        }
        max_end = seg.end_vpn;
        i = i + 1;
    }
    // one guard page, then the user stack
    let stack_bottom_vpn = max_end + 1;
    let stack_pages = USER_STACK_SIZE / PAGE_SIZE;
    proof {
        assert forall|v: nat|
            stack_bottom_vpn <= v < stack_bottom_vpn + stack_pages implies
        !space.some_area_contains(v) by {
            if space.some_area_contains(v) {
                let k = space.area_index_of(v);
                assert(space.areas@[k].contains_vpn(v));
                assert(space.areas@[k].end_vpn <= max_end);
            }
        }
    }
    let ghost alloc_a = *allocator;
    let ghost space_a = space;
    let empty_bytes: Vec<u8> = Vec::new();
    space.push_framed_area_with_data(
        allocator,
        stack_bottom_vpn,
        stack_bottom_vpn + stack_pages,
        MapPermission { bits: MAP_PERM_R | MAP_PERM_W | crate::memory_set::MAP_PERM_U },
        &empty_bytes,
    );
    proof {
        assert forall|p: usize| #[trigger] space.is_frame_of(p) implies !old(
            allocator,
        ).outstanding().contains(p) by {
            if !space_a.is_frame_of(p) {
                assert(!alloc_a.outstanding().contains(p));
            }
        }
    }
    let user_sp = (stack_bottom_vpn + stack_pages) * PAGE_SIZE;
    // the trap context page, kernel-only
    proof {
        assert forall|v: nat|
            TRAP_CONTEXT_VPN <= v < TRAP_CONTEXT_VPN + 1 implies !space.some_area_contains(v) by {
            if space.some_area_contains(v) {
                let k = space.area_index_of(v);
                assert(space.areas@[k].contains_vpn(v));
                if k < prog.segments@.len() {
                    assert(prog.segments@[k].wf());
                }
            }
        }
    }
    let ghost alloc_b = *allocator;
    let ghost space_b = space;
    space.insert_framed_area(
        allocator,
        crate::address::VirtPageNum(TRAP_CONTEXT_VPN),
        crate::address::VirtPageNum(TRAP_CONTEXT_VPN + 1),
        MapPermission { bits: MAP_PERM_R | MAP_PERM_W },
    );
    proof {
        assert forall|p: usize| #[trigger] space.is_frame_of(p) implies !old(
            allocator,
        ).outstanding().contains(p) by {
            if !space_b.is_frame_of(p) {
                assert(!alloc_b.outstanding().contains(p));
            }
        }
    }
    proof {
        let k = space.areas@.len() - 1;
        assert(space.areas@[k].contains_vpn(TRAP_CONTEXT_VPN as nat));
        space.lemma_area_index_of(k, TRAP_CONTEXT_VPN as nat);
        assert forall|off: int| 0 <= off < USER_STACK_SIZE implies #[trigger] space.byte_at(
            ((prog.spec_end() + 1) * PAGE_SIZE + off) as nat,
        ) == Some(0u8) by {
            let va = ((prog.spec_end() + 1) * PAGE_SIZE + off) as nat;
            assert(va / (PAGE_SIZE as nat) < stack_bottom_vpn + stack_pages) by (nonlinear_arith)
                requires
                    va == stack_bottom_vpn * PAGE_SIZE + off,
                    0 <= off < USER_STACK_SIZE,
                    USER_STACK_SIZE == stack_pages * PAGE_SIZE,
                    PAGE_SIZE == 4096,
                    stack_bottom_vpn == prog.spec_end() + 1,
            ;
            assert(va / (PAGE_SIZE as nat) >= stack_bottom_vpn) by (nonlinear_arith)
                requires
                    va == stack_bottom_vpn * PAGE_SIZE + off,
                    0 <= off,
                    PAGE_SIZE == 4096,
            ;
        }
        assert(space.byte_at((TRAP_CONTEXT_VPN * PAGE_SIZE) as nat) is Some) by {
            assert((TRAP_CONTEXT_VPN * PAGE_SIZE) as nat / (PAGE_SIZE as nat)
                == TRAP_CONTEXT_VPN as nat) by (nonlinear_arith)
                requires
                    PAGE_SIZE == 4096,
            ;
            assert(space.areas@[k].wf());
        }
    }
    (space, user_sp, prog.entry)
}

/// The argument strings as byte sequences.
pub open spec fn args_view(args: &Vec<Vec<u8>>) -> Seq<Seq<u8>> {
    args@.map_values(|v: Vec<u8>| v@)
}

/// Bytes the first `i` argument strings occupy on the stack, each with its
/// terminating zero.
pub open spec fn args_size(args: Seq<Seq<u8>>, i: int) -> int
    decreases i,
{
    if i <= 0 {
        0
    } else {
        args_size(args, i - 1) + args[i - 1].len() + 1
    }
}

/// Where argument string `i` starts on the stack: the strings hang below the
/// pointer table, in order, each under its predecessor.
pub open spec fn exec_arg_addr(args: Seq<Seq<u8>>, usp0: int, i: int) -> int {
    usp0 - 8 * (args.len() + 1) - args_size(args, i + 1)
}

/// Lay out the exec arguments on a fresh user stack topped at `usp0`: the
/// NUL-terminated strings, then the pointer table of `args.len() + 1`
/// little-endian entries at `usp0 - 8(n+1)` whose last entry is zero.
/// Returns the new stack pointer: the lowest string address, eight-byte
/// aligned downwards.
#[verifier::rlimit(100)]
#[verifier::spinoff_prover]
pub fn push_exec_args(ms: &mut MemorySet, usp0: usize, args: &Vec<Vec<u8>>) -> (sp: usize)
    requires
        old(ms).wf(),
        // the pointer table and the strings fit on the user stack
        8 * (args_view(args).len() + 1) + args_size(
            args_view(args),
            args_view(args).len() as int,
        ) <= USER_STACK_SIZE,
        usp0 % 8 == 0,
        USER_STACK_SIZE <= usp0 < usize::MAX / 2,
        forall|va: nat|
            usp0 - USER_STACK_SIZE <= va < usp0 ==> #[trigger] old(ms).byte_at(va) is Some,
    ensures
        final(ms).wf(),
        crate::memory_set::same_structure(*old(ms), *final(ms)),
        sp == ({
            let low = exec_arg_addr(args_view(args), usp0 as int, args_view(args).len() - 1);
            low - low % 8
        }),
        usp0 - USER_STACK_SIZE <= sp <= usp0,
        // the pointer table: n addresses and a zero terminator
        forall|i: int, j: int|
            0 <= i <= args_view(args).len() && 0 <= j < 8 ==> #[trigger] final(ms).byte_at(
                ((usp0 - 8 * (args_view(args).len() + 1)) + 8 * i + j) as nat,
            ) == Some(
                crate::memory_set::u64_le_byte(
                    if i < args_view(args).len() {
                        exec_arg_addr(args_view(args), usp0 as int, i) as u64
                    } else {
                        0u64
                    },
                    j,
                ),
            ),
        // each string with its terminator
        forall|i: int, k: int|
            0 <= i < args_view(args).len() && 0 <= k <= args_view(args)[i].len() ==> #[trigger] final(ms).byte_at(
                (exec_arg_addr(args_view(args), usp0 as int, i) + k) as nat,
            ) == Some(
                if k < args_view(args)[i].len() {
                    args_view(args)[i][k]
                } else {
                    0u8
                },
            ),
        forall|va: nat| !(usp0 - USER_STACK_SIZE <= va < usp0) ==> #[trigger] final(ms).byte_at(va)
            == old(ms).byte_at(va),
{
    let n = args.len();
    proof {
        lemma_args_size_nonneg(args_view(args), 0);
        lemma_args_size_nonneg(args_view(args), n as int);
        lemma_args_size_prefix(args_view(args), 0, n as int);
    }
    let base: usize = usp0 - 8 * (n + 1);
    let mut cur: usize = base;
    let mut i: usize = 0;
    while i < n
        invariant
            old(ms).wf(),
            ms.wf(),
            crate::memory_set::same_structure(*old(ms), *ms),
            n == args_view(args).len(),
            8 * (n + 1) + args_size(args_view(args), n as int) <= USER_STACK_SIZE,
            USER_STACK_SIZE <= usp0 < usize::MAX / 2,
            base == usp0 - 8 * (n + 1),
            i <= n,
            cur == base - args_size(args_view(args), i as int),
            forall|va: nat|
                usp0 - USER_STACK_SIZE <= va < usp0 ==> #[trigger] old(ms).byte_at(va) is Some,
            forall|va: nat|
                usp0 - USER_STACK_SIZE <= va < usp0 ==> #[trigger] ms.byte_at(va) is Some,
            forall|va: nat|
                !(usp0 - USER_STACK_SIZE <= va < usp0) ==> #[trigger] ms.byte_at(va) == old(
                    ms,
                ).byte_at(va),
            // table entries written so far
            forall|i2: int, j: int|
                0 <= i2 < i && 0 <= j < 8 ==> #[trigger] ms.byte_at(
                    (base + 8 * i2 + j) as nat,
                ) == Some(
                    crate::memory_set::u64_le_byte(
                        exec_arg_addr(args_view(args), usp0 as int, i2) as u64,
                        j,
                    ),
                ),
            // strings written so far
            forall|i2: int, k: int|
                0 <= i2 < i && 0 <= k <= args_view(args)[i2].len() ==> #[trigger] ms.byte_at(
                    (exec_arg_addr(args_view(args), usp0 as int, i2) + k) as nat,
                ) == Some(
                    if k < args_view(args)[i2].len() {
                        args_view(args)[i2][k]
                    } else {
                        0u8
                    },
                ),
        decreases n - i,
    {
        proof {
            lemma_args_size_nonneg(args_view(args), i as int);
            lemma_args_size_nonneg(args_view(args), i as int + 1);
            lemma_args_size_prefix(args_view(args), i as int + 1, n as int);
        }
        let arg = &args[i];
        proof {
            assert(args_view(args)[i as int] == arg@);
        }
        let step = arg.len() + 1;
        let new_cur = cur - step;
        proof {
            assert(new_cur == base - args_size(args_view(args), i as int + 1));
            assert(base - args_size(args_view(args), i as int + 1) >= usp0 - USER_STACK_SIZE);
        }
        let ghost pre_ms = *ms;
        let ok1 = ms.write_bytes(new_cur, arg);
        let ghost s1 = *ms;
        proof {
            assert(ok1) by {
                assert forall|j: int| 0 <= j < arg@.len() implies #[trigger] pre_ms.byte_at(
                    (new_cur + j) as nat,
                ) is Some by {
                    assert(usp0 - USER_STACK_SIZE <= new_cur + j);
                    assert(new_cur + j < usp0);
                }
            }
        }
        let ok2 = ms.write_byte(new_cur + arg.len(), 0u8);
        let ghost mid_ms = *ms;
        proof {
            assert(ok2) by {
                assert(usp0 - USER_STACK_SIZE <= new_cur + arg@.len());
                assert(new_cur + arg@.len() < usp0);
                assert(s1.byte_at((new_cur + arg@.len()) as nat) is Some) by {
                    assert(pre_ms.byte_at((new_cur + arg@.len()) as nat) is Some);
                }
            }
        }
        let ok3 = ms.write_u64(base + 8 * i, new_cur as u64);
        proof {
            assert(ok3) by {
                assert forall|j: int| 0 <= j < 8 implies #[trigger] mid_ms.byte_at(
                    (base + 8 * i + j) as nat,
                ) is Some by {
                    assert(usp0 - USER_STACK_SIZE <= base + 8 * i + j);
                    assert(base + 8 * i + j < usp0);
                }
            }
            // earlier strings and entries sit outside all three written ranges
            assert forall|i2: int, k: int|
                0 <= i2 < i && 0 <= k <= args_view(args)[i2].len() implies #[trigger] ms.byte_at(
                (exec_arg_addr(args_view(args), usp0 as int, i2) + k) as nat,
            ) == Some(
                if k < args_view(args)[i2].len() {
                    args_view(args)[i2][k]
                } else {
                    0u8
                },
            ) by {
                lemma_args_size_nonneg(args_view(args), i2);
                lemma_args_size_nonneg(args_view(args), i2 + 1);
                lemma_args_size_prefix(args_view(args), i2 + 1, n as int);
                assert(args_size(args_view(args), i2 + 1) <= args_size(args_view(args), i as int)) by {
                    lemma_args_size_prefix(args_view(args), i2 + 1, i as int);
                }
                assert(exec_arg_addr(args_view(args), usp0 as int, i2) + k >= cur);
            }
            assert forall|i2: int, j: int|
                0 <= i2 < i + 1 && 0 <= j < 8 implies #[trigger] ms.byte_at(
                (base + 8 * i2 + j) as nat,
            ) == Some(
                crate::memory_set::u64_le_byte(exec_arg_addr(args_view(args), usp0 as int, i2) as u64, j),
            ) by {
                if i2 < i {
                    assert(base + 8 * i2 + j < base + 8 * i);
                } else {
                    assert(0 <= exec_arg_addr(args_view(args), usp0 as int, i2));
                    assert(new_cur as int == exec_arg_addr(args_view(args), usp0 as int, i2));
                    assert(new_cur as u64 == exec_arg_addr(args_view(args), usp0 as int, i2) as u64);
                }
            }
        }
        proof {
            assert forall|va: nat| usp0 - USER_STACK_SIZE <= va < usp0 implies #[trigger] ms.byte_at(
                va,
            ) is Some by {
                if new_cur <= va < new_cur + arg@.len() {
                    let idx = va - new_cur;
                    assert(s1.byte_at((new_cur + idx) as nat) == Some(arg@[idx]));
                    assert(va == (new_cur + idx) as nat);
                    assert(mid_ms.byte_at(va) == s1.byte_at(va));
                    assert(ms.byte_at(va) == mid_ms.byte_at(va));
                } else if va == new_cur + arg@.len() {
                    assert(mid_ms.byte_at(va) == Some(0u8));
                    assert(ms.byte_at(va) == mid_ms.byte_at(va));
                } else if base + 8 * i <= va < base + 8 * i + 8 {
                    let idx = va - (base + 8 * i);
                    assert(ms.byte_at(((base + 8 * i) + idx) as nat) == Some(
                        crate::memory_set::u64_le_byte(new_cur as u64, idx),
                    ));
                    assert(va == ((base + 8 * i) + idx) as nat);
                } else {
                    assert(s1.byte_at(va) == pre_ms.byte_at(va));
                    assert(mid_ms.byte_at(va) == s1.byte_at(va));
                    assert(ms.byte_at(va) == mid_ms.byte_at(va));
                }
            }
            assert forall|va: nat|
                !(usp0 - USER_STACK_SIZE <= va < usp0) implies #[trigger] ms.byte_at(va) == old(
                ms,
            ).byte_at(va) by {
                assert(s1.byte_at(va) == pre_ms.byte_at(va));
                assert(mid_ms.byte_at(va) == s1.byte_at(va));
                assert(ms.byte_at(va) == mid_ms.byte_at(va));
            }
        }
        cur = new_cur;
        i = i + 1;
    }
    let ghost pre_null = *ms;
    let ok4 = ms.write_u64(base + 8 * n, 0u64);
    proof {
        assert(ok4) by {
            assert forall|j: int| 0 <= j < 8 implies #[trigger] pre_null.byte_at(
                (base + 8 * n + j) as nat,
            ) is Some by {
                assert(usp0 - USER_STACK_SIZE <= base + 8 * n + j);
                assert(base + 8 * n + j < usp0);
            }
        }
        lemma_args_size_nonneg(args_view(args), n as int);
        assert forall|i2: int, k: int|
            0 <= i2 < n && 0 <= k <= args_view(args)[i2].len() implies #[trigger] ms.byte_at(
            (exec_arg_addr(args_view(args), usp0 as int, i2) + k) as nat,
        ) == Some(
            if k < args_view(args)[i2].len() {
                args_view(args)[i2][k]
            } else {
                0u8
            },
        ) by {
            lemma_args_size_nonneg(args_view(args), i2 + 1);
            lemma_args_size_nonneg(args_view(args), i2);
            assert(args_size(args_view(args), i2 + 1) == args_size(args_view(args), i2)
                + args_view(args)[i2].len() + 1);
            assert(args_size(args_view(args), i2 + 1) <= args_size(args_view(args), n as int)) by {
                lemma_args_size_prefix(args_view(args), i2 + 1, n as int);
            }
            assert(exec_arg_addr(args_view(args), usp0 as int, i2) + k < base + 8 * n);
        }
        assert forall|i2: int, j: int|
            0 <= i2 <= n && 0 <= j < 8 implies #[trigger] ms.byte_at(
            ((usp0 - 8 * (n + 1)) + 8 * i2 + j) as nat,
        ) == Some(
            crate::memory_set::u64_le_byte(
                if i2 < n {
                    exec_arg_addr(args_view(args), usp0 as int, i2) as u64
                } else {
                    0u64
                },
                j,
            ),
        ) by {
            if i2 < n {
                assert(base + 8 * i2 + j < base + 8 * n);
            }
        }
    }
    let sp = cur - cur % 8;
    proof {
        lemma_args_size_nonneg(args_view(args), n as int);
        // aligning down cannot dip below the 8-aligned stack bottom
        assert(sp >= usp0 - USER_STACK_SIZE) by (nonlinear_arith)
            requires
                sp == cur - cur % 8,
                cur >= usp0 - USER_STACK_SIZE,
                usp0 % 8 == 0,
                USER_STACK_SIZE % 8 == 0,
                USER_STACK_SIZE <= usp0,
                USER_STACK_SIZE == 8192,
        ;
        if n > 0 {
            assert(cur == exec_arg_addr(args_view(args), usp0 as int, n as int - 1));
        } else {
            assert(cur == base);
            assert(exec_arg_addr(args_view(args), usp0 as int, -1) == base);
        }
    }
    sp
}

/// No run of strings takes negative room.
pub proof fn lemma_args_size_nonneg(args: Seq<Seq<u8>>, k: int)
    ensures
        0 <= args_size(args, k),
    decreases k,
{
    if k > 0 {
        lemma_args_size_nonneg(args, k - 1);
    }
}

/// More strings take more room.
pub proof fn lemma_args_size_prefix(args: Seq<Seq<u8>>, a: int, b: int)
    requires
        0 <= a <= b <= args.len(),
    ensures
        args_size(args, a) <= args_size(args, b),
    decreases b,
{
    if a < b {
        lemma_args_size_prefix(args, a, b - 1);
        assert(args[b - 1].len() >= 0);
    }
}

} // verus!
