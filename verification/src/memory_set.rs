//! Address spaces: a page table plus an ordered list of map areas.
//!
//! Every valid leaf entry of the table points either to an identity-mapped
//! page or to a frame owned by some map area of this space. A framed area
//! also owns the contents of its pages, so the space knows every byte of its
//! user memory. The trampoline page is mapped separately at the highest
//! virtual page and is shared by every space, never owned.

use vstd::prelude::*;

use crate::address::{PhysPageNum, VirtPageNum, VPN_LIMIT};
use crate::config::PAGE_SIZE;
use crate::frame_allocator::StackFrameAllocator;
use crate::page_table::{PTEFlags, PageTable, PageTableEntry, PTE_V};

verus! {

/// The virtual page of the trampoline: the highest one.
pub const TRAMPOLINE_VPN: usize = 0x7FF_FFFF;

/// The virtual page of the trap context: one below the trampoline.
pub const TRAP_CONTEXT_VPN: usize = 0x7FF_FFFE;

pub const MAP_PERM_R: u8 = 0x02;
pub const MAP_PERM_W: u8 = 0x04;
pub const MAP_PERM_X: u8 = 0x08;
pub const MAP_PERM_U: u8 = 0x10;

/// Access permission of one map area, a subset of `R W X U` in the leaf-flag
/// bit positions.
#[derive(Clone, Copy, PartialEq, Eq, Structural, Debug)]
pub struct MapPermission {
    pub bits: u8,
}

impl MapPermission {
    pub fn from_bits(bits: u8) -> (r: MapPermission)
        ensures
            r.bits == bits,
    {
        MapPermission { bits }
    }
}

/// How an area is backed: by the pages of the same physical numbers, or by
/// freshly allocated frames.
#[derive(Clone, Copy, PartialEq, Eq, Structural, Debug)]
pub enum MapType {
    Identical,
    Framed,
}

/// One owned physical page and its contents.
pub struct FramePage {
    pub ppn: usize,
    pub bytes: Vec<u8>,
}

/// A half-open range of virtual pages with one mapping kind and permission.
/// A framed area owns one `FramePage` per covered page, in page order.
pub struct MapArea {
    pub start_vpn: usize,
    pub end_vpn: usize,
    pub map_type: MapType,
    pub map_perm: MapPermission,
    pub data_frames: Vec<FramePage>,
}

impl MapArea {
    pub open spec fn wf(self) -> bool {
        &&& self.start_vpn <= self.end_vpn
        &&& self.end_vpn <= TRAMPOLINE_VPN
        &&& self.map_type == MapType::Framed ==> {
            &&& self.data_frames@.len() == self.end_vpn - self.start_vpn
            &&& forall|j: int|
                0 <= j < self.data_frames@.len() ==> (#[trigger] self.data_frames@[j]).bytes@.len()
                    == PAGE_SIZE
        }
        &&& self.map_type == MapType::Identical ==> self.data_frames@.len() == 0
    }

    /// The leaf flags its pages are mapped with.
    pub open spec fn spec_flags(self) -> u8 {
        self.map_perm.bits | PTE_V
    }

    /// The physical page backing virtual page `v` of this area.
    pub open spec fn frame_of(self, v: nat) -> u64 {
        if self.map_type == MapType::Framed {
            self.data_frames@[v - self.start_vpn].ppn as u64
        } else {
            v as u64
        }
    }

    pub open spec fn contains_vpn(self, v: nat) -> bool {
        self.start_vpn <= v < self.end_vpn
    }
}

/// An address space.
pub struct MemorySet {
    pub page_table: PageTable,
    pub areas: Vec<MapArea>,
    pub trampoline_ppn: Option<usize>,
}

impl MemorySet {
    pub open spec fn some_area_contains(self, v: nat) -> bool {
        exists|i: int| 0 <= i < self.areas@.len() && (#[trigger] self.areas@[i]).contains_vpn(v)
    }

    pub open spec fn area_index_of(self, v: nat) -> int {
        choose|i: int| 0 <= i < self.areas@.len() && (#[trigger] self.areas@[i]).contains_vpn(v)
    }

    /// What a mapped page of an area must translate to.
    pub open spec fn area_page_mapped(self, i: int, v: nat) -> bool {
        self.page_table.mapping_of(v) == Some(
            (self.areas@[i].frame_of(v), self.areas@[i].spec_flags()),
        )
    }

    /// Structure kept by every operation: areas are well-formed and disjoint,
    /// each of their pages is mapped as the area says, the trampoline page is
    /// mapped exactly when the space has one, and nothing else is mapped.
    pub open spec fn wf(self) -> bool {
        &&& self.page_table.wf()
        &&& forall|i: int| 0 <= i < self.areas@.len() ==> (#[trigger] self.areas@[i]).wf()
        &&& forall|i: int, k: int, v: nat|
            0 <= i < k < self.areas@.len() ==> !((#[trigger] self.areas@[i].contains_vpn(v)) && (
            #[trigger] self.areas@[k].contains_vpn(v)))
        &&& forall|i: int, v: nat|
            0 <= i < self.areas@.len() && self.areas@[i].contains_vpn(v) ==> #[trigger] self.area_page_mapped(i, v)
        &&& match self.trampoline_ppn {
            Some(p) => self.page_table.mapping_of(TRAMPOLINE_VPN as nat) == Some(
                (p as u64, MAP_PERM_R | MAP_PERM_X | PTE_V),
            ),
            None => self.page_table.mapping_of(TRAMPOLINE_VPN as nat) is None,
        }
        &&& forall|v: nat|
            v < VPN_LIMIT && !self.some_area_contains(v) && v != TRAMPOLINE_VPN as nat
                ==> #[trigger] self.page_table.mapping_of(v) is None
    }

    /// The space and the allocator agree: every frame of the space — table
    /// nodes, area frames — is outstanding, and no two of them coincide.
    pub open spec fn owns(self, a: StackFrameAllocator) -> bool {
        &&& self.page_table.frames_outstanding(a)
        &&& forall|i: int, j: int|
            0 <= i < self.areas@.len() && 0 <= j < self.areas@[i].data_frames@.len()
                && self.areas@[i].map_type == MapType::Framed ==> a.outstanding().contains(
                (#[trigger] self.areas@[i].data_frames@[j]).ppn,
            )
        &&& forall|i: int, j: int, i2: int, j2: int|
            0 <= i < self.areas@.len() && 0 <= j < self.areas@[i].data_frames@.len() && 0 <= i2
                < self.areas@.len() && 0 <= j2 < self.areas@[i2].data_frames@.len() && !(i == i2
                && j == j2) ==> (#[trigger] self.areas@[i].data_frames@[j]).ppn != (
            #[trigger] self.areas@[i2].data_frames@[j2]).ppn
        &&& forall|i: int, j: int, k: int|
            0 <= i < self.areas@.len() && 0 <= j < self.areas@[i].data_frames@.len() && 0 <= k
                < self.page_table.nodes@.len() ==> (
            #[trigger] self.areas@[i].data_frames@[j]).ppn != (
            #[trigger] self.page_table.nodes@[k]).ppn
    }

    /// Whether physical page `p` backs this space: a table node or an area
    /// frame.
    pub open spec fn is_frame_of(self, p: usize) -> bool {
        ||| self.page_table.has_node(p as u64)
        ||| exists|i: int, j: int|
            0 <= i < self.areas@.len() && 0 <= j < self.areas@[i].data_frames@.len() && (
            #[trigger] self.areas@[i].data_frames@[j]).ppn == p
    }

    /// Whether physical page `p` backs a data page of some area.
    pub open spec fn is_area_frame_of(self, p: usize) -> bool {
        exists|i: int, j: int|
            0 <= i < self.areas@.len() && 0 <= j < self.areas@[i].data_frames@.len() && (
            #[trigger] self.areas@[i].data_frames@[j]).ppn == p
    }

    /// Ownership facts survive when the outstanding pool only grows.
    pub proof fn lemma_owns_superset(self, a1: StackFrameAllocator, a2: StackFrameAllocator)
        requires
            self.owns(a1),
            a1.outstanding().subset_of(a2.outstanding()),
        ensures
            self.owns(a2),
    {
        assert forall|k: int| 0 <= k < self.page_table.nodes@.len() implies a2.outstanding().contains(
            (#[trigger] self.page_table.nodes@[k]).ppn,
        ) by {
            assert(a1.outstanding().contains(self.page_table.nodes@[k].ppn));
        }
    }

    /// Ownership survives another space's teardown: the pool lost only that
    /// space's data pages, and no frame backs two spaces.
    pub proof fn lemma_owns_preserved_after_recycle(
        self,
        a1: StackFrameAllocator,
        a2: StackFrameAllocator,
        dying: MemorySet,
    )
        requires
            self.wf(),
            self.owns(a1),
            forall|p: usize|
                a1.outstanding().contains(p) && !dying.is_area_frame_of(p)
                    ==> #[trigger] a2.outstanding().contains(p),
            forall|q: usize| !(self.is_frame_of(q) && dying.is_frame_of(q)),
        ensures
            self.owns(a2),
    {
        assert forall|k: int| 0 <= k < self.page_table.nodes@.len() implies a2.outstanding().contains(
            (#[trigger] self.page_table.nodes@[k]).ppn,
        ) by {
            let q = self.page_table.nodes@[k].ppn;
            assert(a1.outstanding().contains(q));
            assert(self.page_table.has_node(q as u64));
            assert(self.is_frame_of(q));
            assert(!dying.is_frame_of(q));
            assert(!dying.is_area_frame_of(q));
        }
        assert forall|i: int, j: int|
            0 <= i < self.areas@.len() && 0 <= j < self.areas@[i].data_frames@.len()
                && self.areas@[i].map_type == MapType::Framed implies a2.outstanding().contains(
            (#[trigger] self.areas@[i].data_frames@[j]).ppn,
        ) by {
            let q = self.areas@[i].data_frames@[j].ppn;
            assert(a1.outstanding().contains(q));
            assert(self.is_frame_of(q));
            assert(!dying.is_frame_of(q));
            assert(!dying.is_area_frame_of(q));
        }
    }

    /// Writing page contents never moves a frame.
    pub proof fn lemma_same_structure_frames(pre: MemorySet, post: MemorySet, q: usize)
        requires
            same_structure(pre, post),
        ensures
            post.is_frame_of(q) == pre.is_frame_of(q),
    {
        if post.is_frame_of(q) && !post.page_table.has_node(q as u64) {
            let (i, j) = choose|i: int, j: int|
                0 <= i < post.areas@.len() && 0 <= j < post.areas@[i].data_frames@.len() && (
                #[trigger] post.areas@[i].data_frames@[j]).ppn == q;
            assert(pre.areas@[i].data_frames@[j].ppn == q);
            assert(pre.is_frame_of(q));
        }
        if pre.is_frame_of(q) && !pre.page_table.has_node(q as u64) {
            let (i, j) = choose|i: int, j: int|
                0 <= i < pre.areas@.len() && 0 <= j < pre.areas@[i].data_frames@.len() && (
                #[trigger] pre.areas@[i].data_frames@[j]).ppn == q;
            assert(post.areas@[i].data_frames@[j].ppn == q);
            assert(post.is_frame_of(q));
        }
    }

    /// Ownership survives a whole space being released when no frame backs
    /// two spaces.
    pub proof fn lemma_owns_preserved_after_release(
        self,
        a1: StackFrameAllocator,
        a2: StackFrameAllocator,
        dying: MemorySet,
    )
        requires
            self.wf(),
            self.owns(a1),
            forall|p: usize|
                a1.outstanding().contains(p) && !dying.is_frame_of(p)
                    ==> #[trigger] a2.outstanding().contains(p),
            forall|q: usize| !(self.is_frame_of(q) && dying.is_frame_of(q)),
        ensures
            self.owns(a2),
    {
        assert forall|k: int| 0 <= k < self.page_table.nodes@.len() implies a2.outstanding().contains(
            (#[trigger] self.page_table.nodes@[k]).ppn,
        ) by {
            let q = self.page_table.nodes@[k].ppn;
            assert(a1.outstanding().contains(q));
            assert(self.page_table.has_node(q as u64));
            assert(self.is_frame_of(q));
            assert(!dying.is_frame_of(q));
        }
        assert forall|i: int, j: int|
            0 <= i < self.areas@.len() && 0 <= j < self.areas@[i].data_frames@.len()
                && self.areas@[i].map_type == MapType::Framed implies a2.outstanding().contains(
            (#[trigger] self.areas@[i].data_frames@[j]).ppn,
        ) by {
            let q = self.areas@[i].data_frames@[j].ppn;
            assert(a1.outstanding().contains(q));
            assert(self.is_frame_of(q));
            assert(!dying.is_frame_of(q));
        }
    }

    /// Every frame of a space the allocator owns is outstanding.
    pub proof fn lemma_frames_outstanding(self, a: StackFrameAllocator, p: usize)
        requires
            self.wf(),
            self.owns(a),
            self.is_frame_of(p),
        ensures
            a.outstanding().contains(p),
    {
        if self.page_table.has_node(p as u64) {
            let k = choose|k: int|
                0 <= k < self.page_table.nodes@.len() && self.page_table.nodes@[k].ppn as u64 == (
                p as u64);
            assert(self.page_table.nodes@[k].ppn == p);
            assert(a.outstanding().contains(self.page_table.nodes@[k].ppn));
        } else {
            let (i, j) = choose|i: int, j: int|
                0 <= i < self.areas@.len() && 0 <= j < self.areas@[i].data_frames@.len() && (
                #[trigger] self.areas@[i].data_frames@[j]).ppn == p;
            assert(self.areas@[i].wf());
            if self.areas@[i].map_type == MapType::Framed {
                assert(a.outstanding().contains(self.areas@[i].data_frames@[j].ppn));
            } else {
                assert(self.areas@[i].data_frames@.len() == 0);
                assert(false);
            }
        }
    }

    /// The byte of user memory at virtual address `va`, where some framed
    /// area covers it.
    pub open spec fn byte_at(self, va: nat) -> Option<u8> {
        let v = va / (PAGE_SIZE as nat);
        if self.some_area_contains(v) && self.areas@[self.area_index_of(v)].map_type
            == MapType::Framed {
            let a = self.areas@[self.area_index_of(v)];
            Some(a.data_frames@[v - a.start_vpn].bytes@[(va % (PAGE_SIZE as nat)) as int])
        } else {
            None
        }
    }

    /// The area containing `v` is the one `area_index_of` picks.
    pub proof fn lemma_area_index_of(self, i: int, v: nat)
        requires
            self.wf(),
            0 <= i < self.areas@.len(),
            self.areas@[i].contains_vpn(v),
        ensures
            self.some_area_contains(v),
            self.area_index_of(v) == i,
    {
        assert(self.some_area_contains(v));
        let k = self.area_index_of(v);
        assert(0 <= k < self.areas@.len() && self.areas@[k].contains_vpn(v));
        if k != i {
            assert(false);
        }
    }

    /// An empty space rooted at a fresh table.
    pub fn new_bare(allocator: &mut StackFrameAllocator) -> (r: MemorySet)
        requires
            old(allocator).wf(),
            old(allocator).free_count() >= 1,
        ensures
            final(allocator).wf(),
            r.wf(),
            r.owns(*final(allocator)),
            r.areas@.len() == 0,
            r.trampoline_ppn is None,
            old(allocator).outstanding().subset_of(final(allocator).outstanding()),
            final(allocator).start == old(allocator).start,
            final(allocator).end == old(allocator).end,
            final(allocator).free_count() == old(allocator).free_count() - 1,
            forall|v: nat| v < VPN_LIMIT ==> #[trigger] r.page_table.mapping_of(v) is None,
            forall|p: usize|
                #[trigger] r.is_frame_of(p) ==> !old(allocator).outstanding().contains(p),
    {
        let page_table = PageTable::new(allocator);
        let r = MemorySet { page_table, areas: Vec::new(), trampoline_ppn: None };
        proof {
            assert forall|p: usize| #[trigger] r.is_frame_of(p) implies !old(
                allocator,
            ).outstanding().contains(p) by {
                if r.page_table.has_node(p as u64) {
                    let k = choose|k: int|
                        0 <= k < r.page_table.nodes@.len() && r.page_table.nodes@[k].ppn as u64 == (
                        p as u64);
                    assert(!old(allocator).outstanding().contains(r.page_table.nodes@[k].ppn));
                }
            }
        }
        r
    }

    /// The `satp` value of this space's table.
    pub fn token(&self) -> (r: u64)
        ensures
            r == (8u64 << 60u64) | (self.page_table.root_ppn.0 as u64),
    {
        self.page_table.token()
    }

    /// The leaf entry of `vpn` in this space's table.
    pub fn translate(&self, vpn: VirtPageNum) -> (r: Option<PageTableEntry>)
        requires
            self.wf(),
        ensures
            r == self.page_table.pte_of(vpn.0 as nat),
    {
        self.page_table.translate(vpn)
    }

    /// Map the shared trampoline text page, read-execute, into this space.
    pub fn map_trampoline(&mut self, allocator: &mut StackFrameAllocator, ppn: usize)
        requires
            old(self).wf(),
            old(allocator).wf(),
            old(self).owns(*old(allocator)),
            old(self).trampoline_ppn is None,
            old(allocator).free_count() >= 2,
            old(allocator).end as u64 <= crate::address::PPN_LIMIT,
            (ppn as u64) < crate::address::PPN_LIMIT,
        ensures
            final(self).wf(),
            final(allocator).wf(),
            final(self).owns(*final(allocator)),
            final(allocator).start == old(allocator).start,
            final(allocator).end == old(allocator).end,
            final(allocator).free_count() >= old(allocator).free_count() - 2,
            old(allocator).outstanding().subset_of(final(allocator).outstanding()),
            final(self).trampoline_ppn == Some(ppn),
            final(self).areas@ == old(self).areas@,
            final(self).page_table.root_ppn == old(self).page_table.root_ppn,
            forall|v: nat|
                v < VPN_LIMIT && v != TRAMPOLINE_VPN as nat
                    ==> #[trigger] final(self).page_table.mapping_of(v) == old(
                    self,
                ).page_table.mapping_of(v),
            forall|va: nat| #[trigger] final(self).byte_at(va) == old(self).byte_at(va),
            forall|p: usize|
                #[trigger] final(self).is_frame_of(p) ==> old(self).is_frame_of(p) || !old(
                    allocator,
                ).outstanding().contains(p),
    {
        let flags = PTEFlags { bits: MAP_PERM_R | MAP_PERM_X };
        self.page_table.map(
            allocator,
            VirtPageNum(TRAMPOLINE_VPN),
            PhysPageNum(ppn),
            flags,
        );
        self.trampoline_ppn = Some(ppn);
        proof {
            let post = *self;
            let pre = *old(self);
            assert(post.page_table.mapping_of(TRAMPOLINE_VPN as nat) == Some(
                (ppn as u64, (MAP_PERM_R | MAP_PERM_X) | PTE_V),
            ));
            assert((MAP_PERM_R | MAP_PERM_X) | PTE_V == MAP_PERM_R | MAP_PERM_X | PTE_V)
                by (bit_vector);
            assert forall|i: int, v: nat|
                0 <= i < post.areas@.len() && post.areas@[i].contains_vpn(
                    v,
                ) implies #[trigger] post.area_page_mapped(i, v) by {
                assert(pre.area_page_mapped(i, v));
                assert(pre.areas@[i].wf());
                assert(v != TRAMPOLINE_VPN as nat);
                assert(v < VPN_LIMIT);
            }
            assert(post.wf());
        }
    }
}

impl MemorySet {
    /// Append a framed area over `[start_vpn, end_vpn)`, backed by fresh
    /// frames, mapped with `perm`. The pages carry the bytes of `src` when
    /// one is given and zeroes otherwise. Nothing else in the space changes.
    fn push_framed_area(
        &mut self,
        allocator: &mut StackFrameAllocator,
        start_vpn: usize,
        end_vpn: usize,
        perm: MapPermission,
        src: Option<&MapArea>,
    )
        requires
            old(self).wf(),
            old(allocator).wf(),
            old(self).owns(*old(allocator)),
            start_vpn <= end_vpn,
            end_vpn <= TRAMPOLINE_VPN,
            forall|v: nat| start_vpn <= v < end_vpn ==> !old(self).some_area_contains(v),
            old(allocator).free_count() >= 3 * (end_vpn - start_vpn),
            old(allocator).end as u64 <= crate::address::PPN_LIMIT,
            match src {
                Some(sa) => sa.map_type == MapType::Framed && sa.wf() && sa.end_vpn - sa.start_vpn
                    == end_vpn - start_vpn,
                None => true,
            },
        ensures
            final(self).wf(),
            final(allocator).wf(),
            final(self).owns(*final(allocator)),
            final(allocator).start == old(allocator).start,
            final(allocator).end == old(allocator).end,
            final(allocator).free_count() >= old(allocator).free_count() - 3 * (end_vpn
                - start_vpn),
            old(allocator).outstanding().subset_of(final(allocator).outstanding()),
            final(self).trampoline_ppn == old(self).trampoline_ppn,
            final(self).page_table.root_ppn == old(self).page_table.root_ppn,
            final(self).areas@.len() == old(self).areas@.len() + 1,
            forall|i: int|
                0 <= i < old(self).areas@.len() ==> #[trigger] final(self).areas@[i] == old(
                    self,
                ).areas@[i],
            final(self).areas@.last().start_vpn == start_vpn,
            final(self).areas@.last().end_vpn == end_vpn,
            final(self).areas@.last().map_type == MapType::Framed,
            final(self).areas@.last().map_perm == perm,
            forall|j: int, off: int|
                0 <= j < end_vpn - start_vpn && 0 <= off < PAGE_SIZE ==> (
                #[trigger] final(self).areas@.last().data_frames@[j].bytes@[off]) == (match src {
                    Some(sa) => sa.data_frames@[j].bytes@[off],
                    None => 0u8,
                }),
            forall|v: nat|
                v < VPN_LIMIT && !(start_vpn <= v < end_vpn)
                    ==> #[trigger] final(self).page_table.mapping_of(v) == old(
                    self,
                ).page_table.mapping_of(v),
            forall|va: nat|
                !(start_vpn <= va / (PAGE_SIZE as nat) < end_vpn)
                    ==> #[trigger] final(self).byte_at(va) == old(self).byte_at(va),
            forall|p: usize|
                #[trigger] final(self).is_frame_of(p) ==> old(self).is_frame_of(p) || !old(
                    allocator,
                ).outstanding().contains(p),
    {
        let n = end_vpn - start_vpn;
        // gather the backing frames and their initial contents
        let mut frames: Vec<FramePage> = Vec::new();
        let mut i: usize = 0;
        while i < n
            invariant
                i <= n,
                frames@.len() == i,
                n == end_vpn - start_vpn,
                allocator.wf(),
                allocator.start == old(allocator).start,
                allocator.end == old(allocator).end,
                allocator.free_count() >= old(allocator).free_count() - i,
                old(allocator).free_count() >= 3 * n,
                old(allocator).outstanding().subset_of(allocator.outstanding()),
                forall|j: int|
                    0 <= j < i ==> allocator.outstanding().contains((#[trigger] frames@[j]).ppn),
                forall|j: int|
                    0 <= j < i ==> !old(allocator).outstanding().contains(
                        (#[trigger] frames@[j]).ppn,
                    ),
                forall|j: int, j2: int| 0 <= j < j2 < i ==> frames@[j].ppn != frames@[j2].ppn,
                forall|j: int| 0 <= j < i ==> (#[trigger] frames@[j]).bytes@.len() == PAGE_SIZE,
                forall|j: int, off: int|
                    0 <= j < i && 0 <= off < PAGE_SIZE ==> (
                    #[trigger] frames@[j].bytes@[off]) == (match src {
                        Some(sa) => sa.data_frames@[j].bytes@[off],
                        None => 0u8,
                    }),
                match src {
                    Some(sa) => sa.map_type == MapType::Framed && sa.wf() && sa.end_vpn
                        - sa.start_vpn == n,
                    None => true,
                },
            decreases n - i,
        {
            let frame = match allocator.allocate() {
                Some(f) => f,
                None => {
                    proof {
                        assert(false);
                    }
                    vstd::pervasive::unreached()
                },
            };
            let bytes = match src {
                Some(sa) => copied_page(&sa.data_frames[i].bytes),
                None => zeroed_page(),
            };
            frames.push(FramePage { ppn: frame.ppn.0, bytes });
            i = i + 1;
        }
        let ghost mid_alloc = *allocator;
        let area = MapArea {
            start_vpn,
            end_vpn,
            map_type: MapType::Framed,
            map_perm: perm,
            data_frames: frames,
        };
        // map each page of the new area
        let mut i: usize = 0;
        while i < n
            invariant
                i <= n,
                n == end_vpn - start_vpn,
                start_vpn <= end_vpn,
                end_vpn <= TRAMPOLINE_VPN,
                area.start_vpn == start_vpn,
                area.end_vpn == end_vpn,
                area.map_type == MapType::Framed,
                area.map_perm == perm,
                area.data_frames@.len() == n,
                old(self).wf(),
                old(self).owns(*old(allocator)),
                forall|v: nat| start_vpn <= v < end_vpn ==> !old(self).some_area_contains(v),
                self.page_table.wf(),
                self.areas@ == old(self).areas@,
                self.trampoline_ppn == old(self).trampoline_ppn,
                self.page_table.root_ppn == old(self).page_table.root_ppn,
                self.page_table.frames_outstanding(*allocator),
                allocator.wf(),
                allocator.start == old(allocator).start,
                allocator.end == old(allocator).end,
                allocator.end as u64 <= crate::address::PPN_LIMIT,
                allocator.free_count() >= mid_alloc.free_count() - 2 * i,
                mid_alloc.free_count() >= old(allocator).free_count() - n,
                old(allocator).free_count() >= 3 * n,
                old(allocator).outstanding().subset_of(mid_alloc.outstanding()),
                mid_alloc.outstanding().subset_of(allocator.outstanding()),
                forall|k: int|
                    0 <= k < self.page_table.nodes@.len() ==> old(self).page_table.has_node(
                        (#[trigger] self.page_table.nodes@[k]).ppn as u64,
                    ) || !mid_alloc.outstanding().contains(self.page_table.nodes@[k].ppn),
                forall|j: int|
                    0 <= j < n ==> mid_alloc.outstanding().contains(
                        (#[trigger] area.data_frames@[j]).ppn,
                    ),
                forall|j: int|
                    0 <= j < n ==> !old(allocator).outstanding().contains(
                        (#[trigger] area.data_frames@[j]).ppn,
                    ),
                forall|j: int, j2: int|
                    0 <= j < j2 < n ==> area.data_frames@[j].ppn != area.data_frames@[j2].ppn,
                forall|v: nat|
                    start_vpn <= v < start_vpn + i
                        ==> #[trigger] self.page_table.mapping_of(v) == Some(
                        (area.data_frames@[v - start_vpn].ppn as u64, perm.bits | PTE_V),
                    ),
                forall|v: nat|
                    v < VPN_LIMIT && !(start_vpn <= v < start_vpn + i)
                        ==> #[trigger] self.page_table.mapping_of(v) == old(
                        self,
                    ).page_table.mapping_of(v),
            decreases n - i,
        {
            let vpn = VirtPageNum(start_vpn + i);
            let ppn_val = area.data_frames[i].ppn;
            proof {
                assert(mid_alloc.outstanding().contains(ppn_val));
                assert(allocator.outstanding().contains(ppn_val));
                assert(ppn_val < allocator.current);
                assert((ppn_val as u64) < crate::address::PPN_LIMIT);
                // the page is not mapped yet
                assert(!old(self).some_area_contains((start_vpn + i) as nat));
                assert(old(self).page_table.mapping_of((start_vpn + i) as nat) is None);
            }
            let ghost pre_pt = self.page_table;
            let ghost pre_alloc = *allocator;
            self.page_table.map(allocator, vpn, PhysPageNum(ppn_val), PTEFlags { bits: perm.bits });
            proof {
                assert forall|k: int| 0 <= k < self.page_table.nodes@.len() implies old(
                    self,
                ).page_table.has_node((#[trigger] self.page_table.nodes@[k]).ppn as u64)
                    || !mid_alloc.outstanding().contains(self.page_table.nodes@[k].ppn) by {
                    if pre_pt.has_node(self.page_table.nodes@[k].ppn as u64) {
                        let m = pre_pt.node_index(self.page_table.nodes@[k].ppn as u64);
                        assert(0 <= m < pre_pt.nodes@.len());
                        assert(pre_pt.nodes@[m].ppn == self.page_table.nodes@[k].ppn);
                    }
                }
            }
            i = i + 1;
        }
        let ghost pre_push = *self;
        self.areas.push(area);
        proof {
            let post = *self;
            let newi = pre_push.areas@.len() as int;
            // the new area does not overlap any old area
            assert forall|i2: int, k: int, v: nat| 0 <= i2 < k < post.areas@.len() implies !((
            #[trigger] post.areas@[i2].contains_vpn(v)) && (
            #[trigger] post.areas@[k].contains_vpn(v))) by {
                if k == newi && post.areas@[i2].contains_vpn(v) && post.areas@[k].contains_vpn(v) {
                    assert(pre_push.areas@[i2] == old(self).areas@[i2]);
                    assert(old(self).some_area_contains(v));
                    assert(!old(self).some_area_contains(v));
                }
            }
            // every page of every area is mapped as its area says
            assert forall|i2: int, v: nat|
                0 <= i2 < post.areas@.len() && post.areas@[i2].contains_vpn(
                    v,
                ) implies #[trigger] post.area_page_mapped(i2, v) by {
                if i2 == newi {
                    assert(post.page_table.mapping_of(v) == Some(
                        (area.data_frames@[v - start_vpn].ppn as u64, perm.bits | PTE_V),
                    ));
                } else {
                    assert(pre_push.areas@[i2] == old(self).areas@[i2]);
                    assert(old(self).area_page_mapped(i2, v));
                    assert(v < VPN_LIMIT && !(start_vpn <= v < end_vpn)) by {
                        assert(old(self).areas@[i2].contains_vpn(v));
                        assert(old(self).areas@[i2].wf());
                        assert(old(self).some_area_contains(v)) by {
                            old(self).lemma_area_index_of(i2, v);
                        }
                    }
                }
            }
            // pages outside every area and the trampoline stay unmapped
            assert forall|v: nat|
                v < VPN_LIMIT && !post.some_area_contains(v) && v != TRAMPOLINE_VPN as nat implies
                #[trigger] post.page_table.mapping_of(v) is None by {
                assert(!(start_vpn <= v < end_vpn)) by {
                    if start_vpn <= v < end_vpn {
                        assert(post.areas@[newi].contains_vpn(v));
                    }
                }
                assert(!old(self).some_area_contains(v)) by {
                    if old(self).some_area_contains(v) {
                        let j = old(self).area_index_of(v);
                        assert(old(self).areas@[j].contains_vpn(v));
                        assert(post.areas@[j].contains_vpn(v));
                    }
                }
            }
            assert(post.wf());
            // byte view outside the new range is untouched
            assert forall|va: nat|
                !(start_vpn <= va / (PAGE_SIZE as nat) < end_vpn) implies #[trigger] post.byte_at(
                    va,
                ) == old(self).byte_at(va) by {
                let v = va / (PAGE_SIZE as nat);
                if old(self).some_area_contains(v) {
                    let j = old(self).area_index_of(v);
                    assert(old(self).areas@[j].contains_vpn(v));
                    assert(post.areas@[j].contains_vpn(v));
                    post.lemma_area_index_of(j, v);
                    old(self).lemma_area_index_of(j, v);
                } else {
                    if post.some_area_contains(v) {
                        let j = post.area_index_of(v);
                        assert(post.areas@[j].contains_vpn(v));
                        assert(j != newi);
                        assert(old(self).areas@[j].contains_vpn(v));
                        assert(old(self).some_area_contains(v));
                        assert(false);
                    }
                }
            }
            assert forall|p: usize| #[trigger] post.is_frame_of(p) implies old(self).is_frame_of(p)
                || !old(allocator).outstanding().contains(p) by {
                if post.page_table.has_node(p as u64) {
                    let k = choose|k: int|
                        0 <= k < post.page_table.nodes@.len()
                            && post.page_table.nodes@[k].ppn as u64 == (p as u64);
                    assert(post.page_table.nodes@[k].ppn == p);
                    if old(self).page_table.has_node(p as u64) {
                        assert(old(self).is_frame_of(p));
                    }
                } else {
                    let (i2, j2) = choose|i2: int, j2: int|
                        0 <= i2 < post.areas@.len() && 0 <= j2
                            < post.areas@[i2].data_frames@.len() && (
                        #[trigger] post.areas@[i2].data_frames@[j2]).ppn == p;
                    if i2 == newi {
                        assert(area.data_frames@[j2].ppn == p);
                    } else {
                        assert(post.areas@[i2] == old(self).areas@[i2]);
                        assert(old(self).is_frame_of(p));
                    }
                }
            }
        }
    }

    /// Append a framed area over `[start_vpn, end_vpn)` mapped with `perm`,
    /// whose pages start with the bytes of `data`, zero-padded to the range.
    pub fn push_framed_area_with_data(
        &mut self,
        allocator: &mut StackFrameAllocator,
        start_vpn: usize,
        end_vpn: usize,
        perm: MapPermission,
        data: &Vec<u8>,
    )
        requires
            old(self).wf(),
            old(allocator).wf(),
            old(self).owns(*old(allocator)),
            start_vpn <= end_vpn,
            end_vpn <= TRAMPOLINE_VPN,
            forall|v: nat| start_vpn <= v < end_vpn ==> !old(self).some_area_contains(v),
            old(allocator).free_count() >= 3 * (end_vpn - start_vpn),
            old(allocator).end as u64 <= crate::address::PPN_LIMIT,
            data@.len() <= (end_vpn - start_vpn) * PAGE_SIZE,
            (end_vpn - start_vpn) * PAGE_SIZE <= usize::MAX,
        ensures
            final(self).wf(),
            final(allocator).wf(),
            final(self).owns(*final(allocator)),
            final(allocator).start == old(allocator).start,
            final(allocator).end == old(allocator).end,
            final(allocator).free_count() >= old(allocator).free_count() - 3 * (end_vpn
                - start_vpn),
            old(allocator).outstanding().subset_of(final(allocator).outstanding()),
            final(self).trampoline_ppn == old(self).trampoline_ppn,
            final(self).page_table.root_ppn == old(self).page_table.root_ppn,
            final(self).areas@.len() == old(self).areas@.len() + 1,
            forall|i: int|
                0 <= i < old(self).areas@.len() ==> #[trigger] final(self).areas@[i] == old(
                    self,
                ).areas@[i],
            final(self).areas@.last().start_vpn == start_vpn,
            final(self).areas@.last().end_vpn == end_vpn,
            final(self).areas@.last().map_type == MapType::Framed,
            final(self).areas@.last().map_perm == perm,
            forall|va: nat|
                !(start_vpn <= va / (PAGE_SIZE as nat) < end_vpn)
                    ==> #[trigger] final(self).byte_at(va) == old(self).byte_at(va),
            forall|p: usize|
                #[trigger] final(self).is_frame_of(p) ==> old(self).is_frame_of(p) || !old(
                    allocator,
                ).outstanding().contains(p),
            forall|off: int|
                0 <= off < (end_vpn - start_vpn) * PAGE_SIZE ==> #[trigger] final(self).byte_at(
                    (start_vpn * PAGE_SIZE + off) as nat,
                ) == Some(
                    if off < data@.len() {
                        data@[off]
                    } else {
                        0u8
                    },
                ),
    {
        // a template area carrying the initial page contents
        let n = end_vpn - start_vpn;
        let mut pages: Vec<FramePage> = Vec::new();
        let mut j: usize = 0;
        while j < n
            invariant
                j <= n,
                n == end_vpn - start_vpn,
                n * PAGE_SIZE <= usize::MAX,
                data@.len() <= n * PAGE_SIZE,
                pages@.len() == j,
                forall|k: int| 0 <= k < j ==> (#[trigger] pages@[k]).bytes@.len() == PAGE_SIZE,
                forall|k: int, off: int|
                    0 <= k < j && 0 <= off < PAGE_SIZE ==> (#[trigger] pages@[k].bytes@[off]) == (
                    if k * PAGE_SIZE + off < data@.len() {
                        data@[k * PAGE_SIZE + off]
                    } else {
                        0u8
                    }),
            decreases n - j,
        {
            let mut page: Vec<u8> = Vec::new();
            let mut off: usize = 0;
            proof {
                assert(j * PAGE_SIZE + PAGE_SIZE <= n * PAGE_SIZE) by (nonlinear_arith)
                    requires
                        j < n,
                        PAGE_SIZE == 4096,
                ;
            }
            while off < PAGE_SIZE
                invariant
                    off <= PAGE_SIZE,
                    page@.len() == off,
                    j * PAGE_SIZE + PAGE_SIZE <= n * PAGE_SIZE,
                    n * PAGE_SIZE <= usize::MAX,
                    data@.len() <= n * PAGE_SIZE,
                    forall|o: int|
                        0 <= o < off ==> (#[trigger] page@[o]) == (if j * PAGE_SIZE + o
                            < data@.len() {
                            data@[j * PAGE_SIZE + o]
                        } else {
                            0u8
                        }),
                decreases PAGE_SIZE - off,
            {
                let idx = j * PAGE_SIZE + off;
                if idx < data.len() {
                    page.push(data[idx]);
                } else {
                    page.push(0u8);
                }
                off = off + 1;
            }
            pages.push(FramePage { ppn: 0, bytes: page });
            j = j + 1;
        }
        let template = MapArea {
            start_vpn,
            end_vpn,
            map_type: MapType::Framed,
            map_perm: perm,
            data_frames: pages,
        };
        proof {
            assert(template.wf());
        }
        self.push_framed_area(allocator, start_vpn, end_vpn, perm, Some(&template));
        proof {
            let post = *self;
            let newi = post.areas@.len() - 1;
            assert forall|off: int| 0 <= off < (end_vpn - start_vpn) * PAGE_SIZE implies
            #[trigger] post.byte_at((start_vpn * PAGE_SIZE + off) as nat) == Some(
                if off < data@.len() {
                    data@[off]
                } else {
                    0u8
                },
            ) by {
                let va = (start_vpn * PAGE_SIZE + off) as nat;
                let pg = off / (PAGE_SIZE as int);
                let po = off % (PAGE_SIZE as int);
                assert(off == pg * PAGE_SIZE + po && 0 <= po < PAGE_SIZE && 0 <= pg < end_vpn
                    - start_vpn) by (nonlinear_arith)
                    requires
                        0 <= off < (end_vpn - start_vpn) * PAGE_SIZE,
                        pg == off / (PAGE_SIZE as int),
                        po == off % (PAGE_SIZE as int),
                        PAGE_SIZE == 4096,
                ;
                assert(va / (PAGE_SIZE as nat) == start_vpn + pg && va % (PAGE_SIZE as nat)
                    == po) by (nonlinear_arith)
                    requires
                        va == start_vpn * PAGE_SIZE + off,
                        off == pg * PAGE_SIZE + po,
                        0 <= po < PAGE_SIZE,
                        0 <= pg,
                        PAGE_SIZE == 4096,
                ;
                assert(post.areas@[newi].contains_vpn(va / (PAGE_SIZE as nat)));
                post.lemma_area_index_of(newi, va / (PAGE_SIZE as nat));
                assert(post.areas@.last().data_frames@[pg].bytes@[po] == template.data_frames@[
                    pg].bytes@[po]);
                assert(template.data_frames@[pg].bytes@[po] == (if pg * PAGE_SIZE + po
                    < data@.len() {
                    data@[pg * PAGE_SIZE + po]
                } else {
                    0u8
                }));
            }
        }
    }

    /// Append a framed area over `[start_va, end_va)` with zeroed pages.
    pub fn insert_framed_area(
        &mut self,
        allocator: &mut StackFrameAllocator,
        start_vpn: VirtPageNum,
        end_vpn: VirtPageNum,
        permission: MapPermission,
    )
        requires
            old(self).wf(),
            old(allocator).wf(),
            old(self).owns(*old(allocator)),
            start_vpn.0 <= end_vpn.0,
            end_vpn.0 <= TRAMPOLINE_VPN,
            forall|v: nat| start_vpn.0 <= v < end_vpn.0 ==> !old(self).some_area_contains(v),
            old(allocator).free_count() >= 3 * (end_vpn.0 - start_vpn.0),
            old(allocator).end as u64 <= crate::address::PPN_LIMIT,
        ensures
            final(self).wf(),
            final(allocator).wf(),
            final(self).owns(*final(allocator)),
            final(allocator).start == old(allocator).start,
            final(allocator).end == old(allocator).end,
            final(allocator).free_count() >= old(allocator).free_count() - 3 * (end_vpn.0
                - start_vpn.0),
            old(allocator).outstanding().subset_of(final(allocator).outstanding()),
            final(self).trampoline_ppn == old(self).trampoline_ppn,
            final(self).page_table.root_ppn == old(self).page_table.root_ppn,
            final(self).areas@.len() == old(self).areas@.len() + 1,
            forall|i: int|
                0 <= i < old(self).areas@.len() ==> #[trigger] final(self).areas@[i] == old(
                    self,
                ).areas@[i],
            final(self).areas@.last().start_vpn == start_vpn.0,
            final(self).areas@.last().end_vpn == end_vpn.0,
            final(self).areas@.last().map_type == MapType::Framed,
            final(self).areas@.last().map_perm == permission,
            forall|j: int, off: int|
                0 <= j < end_vpn.0 - start_vpn.0 && 0 <= off < PAGE_SIZE ==> (
                #[trigger] final(self).areas@.last().data_frames@[j].bytes@[off]) == 0u8,
            forall|va: nat|
                !(start_vpn.0 <= va / (PAGE_SIZE as nat) < end_vpn.0)
                    ==> #[trigger] final(self).byte_at(va) == old(self).byte_at(va),
            forall|p: usize|
                #[trigger] final(self).is_frame_of(p) ==> old(self).is_frame_of(p) || !old(
                    allocator,
                ).outstanding().contains(p),
    {
        self.push_framed_area(allocator, start_vpn.0, end_vpn.0, permission, None);
    }
}

/// Frames needed to clone the areas of a space from position `i` on: one per
/// page plus at most two table frames per page.
pub open spec fn areas_cost_from(s: Seq<MapArea>, i: int) -> int
    decreases s.len() - i,
{
    if i < 0 || i >= s.len() {
        0
    } else {
        3 * (s[i].end_vpn - s[i].start_vpn) + areas_cost_from(s, i + 1)
    }
}

pub proof fn lemma_areas_cost_nonneg(s: Seq<MapArea>, i: int)
    requires
        forall|k: int| 0 <= k < s.len() ==> (#[trigger] s[k]).wf(),
    ensures
        areas_cost_from(s, i) >= 0,
    decreases s.len() - i,
{
    if 0 <= i < s.len() {
        lemma_areas_cost_nonneg(s, i + 1);
    }
}

impl MemorySet {
    /// Clone a user space: a fresh table with the same trampoline, and for
    /// every area of `src` a matching area whose pages carry the same bytes —
    /// a true copy. Afterwards the two spaces agree on every byte of user
    /// memory, and a write in either is invisible in the other, since the
    /// copy owns fresh frames.
    pub fn from_existed_user(src: &MemorySet, allocator: &mut StackFrameAllocator) -> (r:
        MemorySet)
        requires
            src.wf(),
            forall|i: int|
                0 <= i < src.areas@.len() ==> (#[trigger] src.areas@[i]).map_type
                    == MapType::Framed,
            old(allocator).wf(),
            old(allocator).free_count() >= 3 + areas_cost_from(src.areas@, 0),
            old(allocator).end as u64 <= crate::address::PPN_LIMIT,
            match src.trampoline_ppn {
                Some(p) => (p as u64) < crate::address::PPN_LIMIT,
                None => true,
            },
        ensures
            final(allocator).wf(),
            r.wf(),
            r.owns(*final(allocator)),
            final(allocator).start == old(allocator).start,
            final(allocator).end == old(allocator).end,
            old(allocator).outstanding().subset_of(final(allocator).outstanding()),
            r.trampoline_ppn == src.trampoline_ppn,
            r.areas@.len() == src.areas@.len(),
            forall|i: int|
                0 <= i < src.areas@.len() ==> {
                    &&& (#[trigger] r.areas@[i]).start_vpn == src.areas@[i].start_vpn
                    &&& r.areas@[i].end_vpn == src.areas@[i].end_vpn
                    &&& r.areas@[i].map_type == src.areas@[i].map_type
                    &&& r.areas@[i].map_perm == src.areas@[i].map_perm
                },
            forall|va: nat| #[trigger] r.byte_at(va) == src.byte_at(va),
            forall|p: usize|
                #[trigger] r.is_frame_of(p) ==> !old(allocator).outstanding().contains(p),
    {
        proof {
            lemma_areas_cost_nonneg(src.areas@, 0);
        }
        let mut child = MemorySet::new_bare(allocator);
        match src.trampoline_ppn {
            Some(p) => {
                child.map_trampoline(allocator, p);
            },
            None => {},
        }
        let n = src.areas.len();
        let mut i: usize = 0;
        while i < n
            invariant
                src.wf(),
                forall|k: int|
                    0 <= k < src.areas@.len() ==> (#[trigger] src.areas@[k]).map_type
                        == MapType::Framed,
                n == src.areas@.len(),
                i <= n,
                child.wf(),
                allocator.wf(),
                child.owns(*allocator),
                allocator.start == old(allocator).start,
                allocator.end == old(allocator).end,
                allocator.end as u64 <= crate::address::PPN_LIMIT,
                allocator.free_count() >= areas_cost_from(src.areas@, i as int),
                old(allocator).outstanding().subset_of(allocator.outstanding()),
                child.trampoline_ppn == src.trampoline_ppn,
                child.areas@.len() == i,
                forall|k: int|
                    0 <= k < i ==> {
                        &&& (#[trigger] child.areas@[k]).start_vpn == src.areas@[k].start_vpn
                        &&& child.areas@[k].end_vpn == src.areas@[k].end_vpn
                        &&& child.areas@[k].map_type == src.areas@[k].map_type
                        &&& child.areas@[k].map_perm == src.areas@[k].map_perm
                    },
                forall|k: int, j: int, off: int|
                    0 <= k < i && 0 <= j < child.areas@[k].data_frames@.len() && 0 <= off
                        < PAGE_SIZE ==> (#[trigger] child.areas@[k].data_frames@[j].bytes@[off])
                        == src.areas@[k].data_frames@[j].bytes@[off],
                forall|p: usize|
                    #[trigger] child.is_frame_of(p) ==> !old(allocator).outstanding().contains(p),
            decreases n - i,
        {
            proof {
                lemma_areas_cost_nonneg(src.areas@, i + 1);
                assert(areas_cost_from(src.areas@, i as int) == 3 * (src.areas@[i as int].end_vpn
                    - src.areas@[i as int].start_vpn) + areas_cost_from(src.areas@, i + 1));
                assert(src.areas@[i as int].wf());
                // the range of the source area is still free in the child
                assert forall|v: nat|
                    src.areas@[i as int].start_vpn <= v < src.areas@[i as int].end_vpn implies
                !child.some_area_contains(v) by {
                    if child.some_area_contains(v) {
                        let k = child.area_index_of(v);
                        assert(child.areas@[k].contains_vpn(v));
                        assert(src.areas@[k].contains_vpn(v));
                        assert(src.areas@[i as int].contains_vpn(v));
                        src.lemma_area_index_of(k, v);
                        src.lemma_area_index_of(i as int, v);
                        assert(false);
                    }
                }
            }
            let sa = &src.areas[i];
            let ghost pre_child = child;
            let ghost pre_alloc = *allocator;
            child.push_framed_area(allocator, sa.start_vpn, sa.end_vpn, sa.map_perm, Some(sa));
            proof {
                assert forall|p: usize| #[trigger] child.is_frame_of(p) implies !old(
                    allocator,
                ).outstanding().contains(p) by {
                    if !pre_child.is_frame_of(p) {
                        assert(!pre_alloc.outstanding().contains(p));
                    }
                }
            }
            i = i + 1;
        }
        proof {
            assert forall|va: nat| #[trigger] child.byte_at(va) == src.byte_at(va) by {
                let v = va / (PAGE_SIZE as nat);
                if src.some_area_contains(v) {
                    let k = src.area_index_of(v);
                    assert(src.areas@[k].contains_vpn(v));
                    assert(child.areas@[k].contains_vpn(v));
                    src.lemma_area_index_of(k, v);
                    child.lemma_area_index_of(k, v);
                    assert(src.areas@[k].wf());
                    assert(child.areas@[k].wf());
                } else {
                    if child.some_area_contains(v) {
                        let k = child.area_index_of(v);
                        assert(child.areas@[k].contains_vpn(v));
                        assert(src.areas@[k].contains_vpn(v));
                        assert(src.some_area_contains(v)) by {
                            src.lemma_area_index_of(k, v);
                        }
                        assert(false);
                    }
                }
            }
        }
        child
    }
}

impl MemorySet {
    /// Unmap every page of the framed area at `idx`, return its frames, and
    /// drop the area.
    fn teardown_area_at(&mut self, allocator: &mut StackFrameAllocator, idx: usize)
        requires
            old(self).wf(),
            old(allocator).wf(),
            old(self).owns(*old(allocator)),
            idx < old(self).areas@.len(),
            old(self).areas@[idx as int].map_type == MapType::Framed,
        ensures
            final(self).wf(),
            final(allocator).wf(),
            final(self).owns(*final(allocator)),
            final(allocator).start == old(allocator).start,
            final(allocator).end == old(allocator).end,
            final(allocator).outstanding().subset_of(old(allocator).outstanding()),
            final(allocator).free_count() >= old(allocator).free_count(),
            final(self).trampoline_ppn == old(self).trampoline_ppn,
            final(self).page_table.root_ppn == old(self).page_table.root_ppn,
            final(self).areas@ == old(self).areas@.remove(idx as int),
            final(self).page_table.nodes@.len() == old(self).page_table.nodes@.len(),
            forall|k: int|
                0 <= k < old(self).page_table.nodes@.len() ==> (
                #[trigger] final(self).page_table.nodes@[k]).ppn == old(
                    self,
                ).page_table.nodes@[k].ppn,
            forall|v: nat|
                v < VPN_LIMIT && !old(self).areas@[idx as int].contains_vpn(v)
                    ==> #[trigger] final(self).page_table.mapping_of(v) == old(
                    self,
                ).page_table.mapping_of(v),
            forall|p: usize|
                old(allocator).outstanding().contains(p) && !(exists|j: int|
                    0 <= j < old(self).areas@[idx as int].data_frames@.len() && (
                    #[trigger] old(self).areas@[idx as int].data_frames@[j]).ppn == p)
                    ==> #[trigger] final(allocator).outstanding().contains(p),
            forall|j: int|
                0 <= j < old(self).areas@[idx as int].data_frames@.len()
                    ==> !final(allocator).outstanding().contains(
                    (#[trigger] old(self).areas@[idx as int].data_frames@[j]).ppn,
                ),
    {
        let start = self.areas[idx].start_vpn;
        let end = self.areas[idx].end_vpn;
        let n = end - start;
        let ghost pre = *old(self);
        let ghost a = pre.areas@[idx as int];
        proof {
            assert(a.wf());
        }
        let mut j: usize = 0;
        while j < n
            invariant
                pre.wf(),
                pre.owns(*old(allocator)),
                idx < pre.areas@.len(),
                a == pre.areas@[idx as int],
                a.map_type == MapType::Framed,
                a.wf(),
                start == a.start_vpn,
                end == a.end_vpn,
                n == end - start,
                j <= n,
                self.areas@ == pre.areas@,
                self.trampoline_ppn == pre.trampoline_ppn,
                self.page_table.root_ppn == pre.page_table.root_ppn,
                self.page_table.wf(),
                allocator.wf(),
                allocator.start == old(allocator).start,
                allocator.end == old(allocator).end,
                allocator.free_count() >= old(allocator).free_count(),
                allocator.outstanding().subset_of(old(allocator).outstanding()),
                forall|p: usize|
                    old(allocator).outstanding().contains(p) && !(exists|j2: int|
                        0 <= j2 < j && (#[trigger] a.data_frames@[j2]).ppn == p)
                        ==> #[trigger] allocator.outstanding().contains(p),
                forall|j2: int|
                    0 <= j2 < j ==> !allocator.outstanding().contains(
                        (#[trigger] a.data_frames@[j2]).ppn,
                    ),
                self.page_table.nodes@.len() == pre.page_table.nodes@.len(),
                forall|k: int|
                    0 <= k < pre.page_table.nodes@.len() ==> (
                    #[trigger] self.page_table.nodes@[k]).ppn == pre.page_table.nodes@[k].ppn,
                // frames not yet returned are still outstanding
                forall|i2: int, j2: int|
                    0 <= i2 < pre.areas@.len() && 0 <= j2 < pre.areas@[i2].data_frames@.len()
                        && pre.areas@[i2].map_type == MapType::Framed && !(i2 == idx as int && j2
                        < j) ==> allocator.outstanding().contains(
                        (#[trigger] pre.areas@[i2].data_frames@[j2]).ppn,
                    ),
                self.page_table.frames_outstanding(*allocator),
                // pages already torn down are unmapped; all others keep their
                // translation
                forall|v: nat|
                    start <= v < start + j ==> #[trigger] self.page_table.mapping_of(v) is None,
                forall|v: nat|
                    v < VPN_LIMIT && !(start <= v < start + j)
                        ==> #[trigger] self.page_table.mapping_of(v) == pre.page_table.mapping_of(
                        v,
                    ),
            decreases n - j,
        {
            let v = VirtPageNum(start + j);
            proof {
                assert(a.contains_vpn((start + j) as nat));
                pre.lemma_area_index_of(idx as int, (start + j) as nat);
                assert(pre.area_page_mapped(idx as int, (start + j) as nat));
                assert(((start + j) as nat) < VPN_LIMIT);
            }
            self.page_table.unmap(v);
            let ppn_val = self.areas[idx].data_frames[j].ppn;
            proof {
                assert(pre.areas@[idx as int].data_frames@[j as int].ppn == ppn_val);
                assert(allocator.outstanding().contains(ppn_val));
            }
            allocator.dealloc(PhysPageNum(ppn_val));
            proof {
                assert forall|k: int| 0 <= k < self.page_table.nodes@.len() implies
                allocator.outstanding().contains((#[trigger] self.page_table.nodes@[k]).ppn) by {
                    assert(self.page_table.nodes@[k].ppn == pre.page_table.nodes@[k].ppn);
                    assert(pre.page_table.nodes@[k].ppn != ppn_val);
                }
                // only the one frame left the pool
                assert forall|i2: int, j2: int|
                    0 <= i2 < pre.areas@.len() && 0 <= j2 < pre.areas@[i2].data_frames@.len()
                        && pre.areas@[i2].map_type == MapType::Framed && !(i2 == idx as int && j2
                        < j + 1) implies allocator.outstanding().contains(
                    (#[trigger] pre.areas@[i2].data_frames@[j2]).ppn,
                ) by {
                    assert(pre.areas@[i2].data_frames@[j2].ppn != ppn_val);
                }
            }
            j = j + 1;
        }
        let ghost mid = *self;
        self.areas.remove(idx);
        proof {
            let post = *self;
            assert(post.areas@ == pre.areas@.remove(idx as int));
            // disjointness and well-formedness carry over from the old areas
            assert forall|i2: int| 0 <= i2 < post.areas@.len() implies (
            #[trigger] post.areas@[i2]).wf() by {
                if i2 < idx as int {
                    assert(post.areas@[i2] == pre.areas@[i2]);
                } else {
                    assert(post.areas@[i2] == pre.areas@[i2 + 1]);
                }
            }
            assert forall|i2: int, k: int, v: nat| 0 <= i2 < k < post.areas@.len() implies !((
            #[trigger] post.areas@[i2].contains_vpn(v)) && (
            #[trigger] post.areas@[k].contains_vpn(v))) by {
                let oi = if i2 < idx as int {
                    i2
                } else {
                    i2 + 1
                };
                let ok_ = if k < idx as int {
                    k
                } else {
                    k + 1
                };
                assert(post.areas@[i2] == pre.areas@[oi]);
                assert(post.areas@[k] == pre.areas@[ok_]);
            }
            // every remaining page keeps its mapping
            assert forall|i2: int, v: nat|
                0 <= i2 < post.areas@.len() && post.areas@[i2].contains_vpn(
                    v,
                ) implies #[trigger] post.area_page_mapped(i2, v) by {
                let oi = if i2 < idx as int {
                    i2
                } else {
                    i2 + 1
                };
                assert(post.areas@[i2] == pre.areas@[oi]);
                assert(pre.area_page_mapped(oi, v));
                assert(!a.contains_vpn(v)) by {
                    if a.contains_vpn(v) {
                        pre.lemma_area_index_of(oi, v);
                        pre.lemma_area_index_of(idx as int, v);
                        assert(false);
                    }
                }
                assert(v < VPN_LIMIT) by {
                    assert(pre.areas@[oi].wf());
                }
            }
            // no stray mapping is left behind
            assert forall|v: nat|
                v < VPN_LIMIT && !post.some_area_contains(v) && v != TRAMPOLINE_VPN as nat implies
                #[trigger] post.page_table.mapping_of(v) is None by {
                if a.contains_vpn(v) {
                    assert(post.page_table.mapping_of(v) is None);
                } else {
                    assert(!pre.some_area_contains(v)) by {
                        if pre.some_area_contains(v) {
                            let k = pre.area_index_of(v);
                            assert(pre.areas@[k].contains_vpn(v));
                            assert(k != idx as int);
                            let nk = if k < idx as int {
                                k
                            } else {
                                k - 1
                            };
                            assert(post.areas@[nk] == pre.areas@[k]);
                            assert(post.some_area_contains(v));
                            assert(false);
                        }
                    }
                }
            }
            assert(mid.page_table.mapping_of(TRAMPOLINE_VPN as nat) == pre.page_table.mapping_of(
                TRAMPOLINE_VPN as nat,
            )) by {
                assert(!a.contains_vpn(TRAMPOLINE_VPN as nat));
            }
            assert(post.wf());
            // ownership of the remaining frames
            assert forall|i2: int, j2: int|
                0 <= i2 < post.areas@.len() && 0 <= j2 < post.areas@[i2].data_frames@.len()
                    && post.areas@[i2].map_type == MapType::Framed implies
            allocator.outstanding().contains((#[trigger] post.areas@[i2].data_frames@[j2]).ppn) by {
                let oi = if i2 < idx as int {
                    i2
                } else {
                    i2 + 1
                };
                assert(post.areas@[i2] == pre.areas@[oi]);
            }
            assert forall|i2: int, j2: int, k2: int, l2: int|
                0 <= i2 < post.areas@.len() && 0 <= j2 < post.areas@[i2].data_frames@.len() && 0
                    <= k2 < post.areas@.len() && 0 <= l2 < post.areas@[k2].data_frames@.len() && !(
                i2 == k2 && j2 == l2) implies (#[trigger] post.areas@[i2].data_frames@[j2]).ppn != (
            #[trigger] post.areas@[k2].data_frames@[l2]).ppn by {
                let oi = if i2 < idx as int {
                    i2
                } else {
                    i2 + 1
                };
                let ok_ = if k2 < idx as int {
                    k2
                } else {
                    k2 + 1
                };
                assert(post.areas@[i2] == pre.areas@[oi]);
                assert(post.areas@[k2] == pre.areas@[ok_]);
            }
            assert forall|i2: int, j2: int, k2: int|
                0 <= i2 < post.areas@.len() && 0 <= j2 < post.areas@[i2].data_frames@.len() && 0
                    <= k2 < post.page_table.nodes@.len() implies (
            #[trigger] post.areas@[i2].data_frames@[j2]).ppn != (
            #[trigger] post.page_table.nodes@[k2]).ppn by {
                let oi = if i2 < idx as int {
                    i2
                } else {
                    i2 + 1
                };
                assert(post.areas@[i2] == pre.areas@[oi]);
            }
            assert(post.owns(*allocator));
        }
    }

    /// Return every data page of every area to the allocator and drop the
    /// areas; the trampoline mapping stays, so the table remains usable.
    /// Called on process exit.
    pub fn recycle_data_pages(&mut self, allocator: &mut StackFrameAllocator)
        requires
            old(self).wf(),
            old(allocator).wf(),
            old(self).owns(*old(allocator)),
            forall|i: int|
                0 <= i < old(self).areas@.len() ==> (#[trigger] old(self).areas@[i]).map_type
                    == MapType::Framed,
        ensures
            final(self).wf(),
            final(allocator).wf(),
            final(self).owns(*final(allocator)),
            final(allocator).start == old(allocator).start,
            final(allocator).end == old(allocator).end,
            final(allocator).outstanding().subset_of(old(allocator).outstanding()),
            final(allocator).free_count() >= old(allocator).free_count(),
            final(self).areas@.len() == 0,
            final(self).page_table.nodes@.len() == old(self).page_table.nodes@.len(),
            forall|k: int|
                0 <= k < old(self).page_table.nodes@.len() ==> (
                #[trigger] final(self).page_table.nodes@[k]).ppn == old(
                    self,
                ).page_table.nodes@[k].ppn,
            final(self).trampoline_ppn == old(self).trampoline_ppn,
            final(self).page_table.root_ppn == old(self).page_table.root_ppn,
            final(self).page_table.mapping_of(TRAMPOLINE_VPN as nat) == old(
                self,
            ).page_table.mapping_of(TRAMPOLINE_VPN as nat),
            forall|p: usize|
                old(allocator).outstanding().contains(p) && !old(self).is_area_frame_of(p)
                    ==> #[trigger] final(allocator).outstanding().contains(p),
            forall|p: usize|
                old(self).is_area_frame_of(p) ==> !final(allocator).outstanding().contains(p),
    {
        while self.areas.len() > 0
            invariant
                self.wf(),
                allocator.wf(),
                self.owns(*allocator),
                allocator.start == old(allocator).start,
                allocator.end == old(allocator).end,
                allocator.outstanding().subset_of(old(allocator).outstanding()),
                allocator.free_count() >= old(allocator).free_count(),
                self.trampoline_ppn == old(self).trampoline_ppn,
                self.page_table.root_ppn == old(self).page_table.root_ppn,
                self.page_table.nodes@.len() == old(self).page_table.nodes@.len(),
                forall|k: int|
                    0 <= k < old(self).page_table.nodes@.len() ==> (
                    #[trigger] self.page_table.nodes@[k]).ppn == old(
                        self,
                    ).page_table.nodes@[k].ppn,
                self.page_table.mapping_of(TRAMPOLINE_VPN as nat) == old(
                    self,
                ).page_table.mapping_of(TRAMPOLINE_VPN as nat),
                forall|i: int|
                    0 <= i < self.areas@.len() ==> (#[trigger] self.areas@[i]).map_type
                        == MapType::Framed,
                self.areas@.len() <= old(self).areas@.len(),
                forall|i: int|
                    0 <= i < self.areas@.len() ==> #[trigger] self.areas@[i] == old(
                        self,
                    ).areas@[i],
                forall|p: usize|
                    old(allocator).outstanding().contains(p) && !old(self).is_area_frame_of(p)
                        ==> #[trigger] allocator.outstanding().contains(p),
                forall|p: usize|
                    old(self).is_area_frame_of(p) && !self.is_area_frame_of(p)
                        ==> !allocator.outstanding().contains(p),
            decreases self.areas@.len(),
        {
            let idx = self.areas.len() - 1;
            let ghost pre_areas = self.areas@;
            let ghost pre_alloc = *allocator;
            let ghost pre_self = *self;
            self.teardown_area_at(allocator, idx);
            proof {
                assert(forall|i: int|
                    0 <= i < self.areas@.len() ==> self.areas@[i] == pre_areas.remove(idx as int)[i]);
                assert forall|p: usize|
                    old(self).is_area_frame_of(p) && !self.is_area_frame_of(
                        p,
                    ) implies !allocator.outstanding().contains(p) by {
                    if pre_self.is_area_frame_of(p) {
                        let (ai, aj) = choose|ai: int, aj: int|
                            0 <= ai < pre_self.areas@.len() && 0 <= aj
                                < pre_self.areas@[ai].data_frames@.len() && (
                            #[trigger] pre_self.areas@[ai].data_frames@[aj]).ppn == p;
                        if ai < idx as int {
                            assert(self.areas@[ai] == pre_self.areas@[ai]);
                            assert(self.is_area_frame_of(p));
                            assert(false);
                        } else {
                            assert(!allocator.outstanding().contains(
                                pre_self.areas@[idx as int].data_frames@[aj].ppn,
                            ));
                        }
                    } else {
                        assert(!pre_alloc.outstanding().contains(p));
                        assert(allocator.outstanding().subset_of(pre_alloc.outstanding()));
                    }
                }
                assert forall|p: usize|
                    old(allocator).outstanding().contains(p) && !old(self).is_area_frame_of(
                        p,
                    ) implies #[trigger] allocator.outstanding().contains(p) by {
                    assert(pre_alloc.outstanding().contains(p));
                    assert(!(exists|j: int|
                        0 <= j < pre_self.areas@[idx as int].data_frames@.len() && (
                        #[trigger] pre_self.areas@[idx as int].data_frames@[j]).ppn == p)) by {
                        if exists|j: int|
                            0 <= j < pre_self.areas@[idx as int].data_frames@.len() && (
                            #[trigger] pre_self.areas@[idx as int].data_frames@[j]).ppn == p {
                            let j = choose|j: int|
                                0 <= j < pre_self.areas@[idx as int].data_frames@.len() && (
                                #[trigger] pre_self.areas@[idx as int].data_frames@[j]).ppn == p;
                            assert(pre_self.areas@[idx as int] == old(self).areas@[idx as int]);
                            assert(old(self).is_area_frame_of(p));
                        }
                    }
                }
            }
        }
    }

    /// Give every frame of the space back — data pages and the table's own
    /// frames — consuming it. Called when an address space is replaced.
    pub fn release(self, allocator: &mut StackFrameAllocator)
        requires
            self.wf(),
            old(allocator).wf(),
            self.owns(*old(allocator)),
            forall|i: int|
                0 <= i < self.areas@.len() ==> (#[trigger] self.areas@[i]).map_type
                    == MapType::Framed,
        ensures
            final(allocator).wf(),
            final(allocator).start == old(allocator).start,
            final(allocator).end == old(allocator).end,
            final(allocator).outstanding().subset_of(old(allocator).outstanding()),
            forall|p: usize|
                old(allocator).outstanding().contains(p) && !self.is_frame_of(p)
                    ==> #[trigger] final(allocator).outstanding().contains(p),
            forall|p: usize| self.is_frame_of(p) ==> !final(allocator).outstanding().contains(p),
            final(allocator).free_count() >= old(allocator).free_count(),
    {
        let mut me = self;
        let ghost pre = me;
        me.recycle_data_pages(allocator);
        let ghost mid_alloc = *allocator;
        let mut nodes = me.page_table.nodes;
        proof {
            assert(forall|k: int|
                0 <= k < nodes@.len() ==> mid_alloc.outstanding().contains(
                    (#[trigger] nodes@[k]).ppn,
                ));
            assert forall|p: usize|
                pre.page_table.has_node(p as u64) && !(exists|k: int|
                    0 <= k < nodes@.len() && (#[trigger] nodes@[k]).ppn == p) implies
            !allocator.outstanding().contains(p) by {
                let k = choose|k: int|
                    0 <= k < pre.page_table.nodes@.len() && pre.page_table.nodes@[k].ppn as u64 == (
                    p as u64);
                assert(nodes@[k].ppn == pre.page_table.nodes@[k].ppn);
                assert(nodes@[k].ppn == p);
                assert(false);
            }
        }
        while nodes.len() > 0
            invariant
                allocator.wf(),
                allocator.start == old(allocator).start,
                allocator.end == old(allocator).end,
                allocator.outstanding().subset_of(mid_alloc.outstanding()),
                forall|k: int|
                    0 <= k < nodes@.len() ==> allocator.outstanding().contains(
                        (#[trigger] nodes@[k]).ppn,
                    ),
                forall|k: int, k2: int|
                    0 <= k < k2 < nodes@.len() ==> (#[trigger] nodes@[k]).ppn != (
                    #[trigger] nodes@[k2]).ppn,
                forall|p: usize|
                    mid_alloc.outstanding().contains(p) && !pre.page_table.has_node(p as u64)
                        ==> #[trigger] allocator.outstanding().contains(p),
                forall|k: int|
                    0 <= k < nodes@.len() ==> pre.page_table.has_node(
                        ((#[trigger] nodes@[k]).ppn) as u64,
                    ),
                forall|p: usize|
                    pre.page_table.has_node(p as u64) && !(exists|k: int|
                        0 <= k < nodes@.len() && (#[trigger] nodes@[k]).ppn == p)
                        ==> !allocator.outstanding().contains(p),
                forall|p: usize|
                    pre.is_area_frame_of(p) ==> !allocator.outstanding().contains(p),
                allocator.free_count() >= old(allocator).free_count(),
            decreases nodes@.len(),
        {
            let ghost nodes_before = nodes@;
            let node = match nodes.pop() {
                Some(n) => n,
                None => {
                    proof {
                        assert(false);
                    }
                    vstd::pervasive::unreached()
                },
            };
            allocator.dealloc(PhysPageNum(node.ppn));
            proof {
                assert forall|p: usize|
                    pre.page_table.has_node(p as u64) && !(exists|k: int|
                        0 <= k < nodes@.len() && (#[trigger] nodes@[k]).ppn == p) implies
                !allocator.outstanding().contains(p) by {
                    if p != node.ppn {
                        assert(!(exists|k: int|
                            0 <= k < nodes_before.len() && (#[trigger] nodes_before[k]).ppn == p))
                            by {
                            if exists|k: int|
                                0 <= k < nodes_before.len() && (#[trigger] nodes_before[k]).ppn
                                    == p {
                                let k = choose|k: int|
                                    0 <= k < nodes_before.len() && (#[trigger] nodes_before[k]).ppn
                                        == p;
                                if k < nodes_before.len() - 1 {
                                    assert(nodes@[k].ppn == p);
                                } else {
                                    assert(nodes_before[k].ppn == node.ppn);
                                }
                                assert(false);
                            }
                        }
                    }
                }
            }
        }
        proof {
            assert forall|p: usize| pre.is_frame_of(p) implies !allocator.outstanding().contains(
                p,
            ) by {
                if pre.page_table.has_node(p as u64) {
                } else {
                    let (i, j) = choose|i: int, j: int|
                        0 <= i < pre.areas@.len() && 0 <= j < pre.areas@[i].data_frames@.len() && (
                        #[trigger] pre.areas@[i].data_frames@[j]).ppn == p;
                    assert(pre.is_area_frame_of(p));
                }
            }
            assert forall|p: usize|
                old(allocator).outstanding().contains(p) && !pre.is_frame_of(p) implies
            #[trigger] allocator.outstanding().contains(p) by {
                assert(!pre.is_area_frame_of(p)) by {
                    if pre.is_area_frame_of(p) {
                        let (i, j) = choose|i: int, j: int|
                            0 <= i < pre.areas@.len() && 0 <= j
                                < pre.areas@[i].data_frames@.len() && (
                            #[trigger] pre.areas@[i].data_frames@[j]).ppn == p;
                        assert(pre.is_frame_of(p));
                    }
                }
                assert(mid_alloc.outstanding().contains(p));
                assert(!pre.page_table.has_node(p as u64));
            }
        }
    }

    /// Unmap and drop the area that starts at `start_vpn`, if any.
    pub fn remove_area_with_start_vpn(
        &mut self,
        allocator: &mut StackFrameAllocator,
        start_vpn: VirtPageNum,
    )
        requires
            old(self).wf(),
            old(allocator).wf(),
            old(self).owns(*old(allocator)),
            forall|i: int|
                0 <= i < old(self).areas@.len() ==> (#[trigger] old(self).areas@[i]).map_type
                    == MapType::Framed,
        ensures
            final(self).wf(),
            final(allocator).wf(),
            final(self).owns(*final(allocator)),
            final(allocator).start == old(allocator).start,
            final(allocator).end == old(allocator).end,
            final(allocator).outstanding().subset_of(old(allocator).outstanding()),
            final(allocator).free_count() >= old(allocator).free_count(),
            final(self).trampoline_ppn == old(self).trampoline_ppn,
            final(self).page_table.root_ppn == old(self).page_table.root_ppn,
            (exists|i: int|
                0 <= i < old(self).areas@.len() && (#[trigger] old(self).areas@[i]).start_vpn
                    == start_vpn.0) ==> (exists|i: int|
                {
                    &&& 0 <= i < old(self).areas@.len()
                    &&& (#[trigger] old(self).areas@[i]).start_vpn == start_vpn.0
                    &&& final(self).areas@ == old(self).areas@.remove(i)
                    &&& forall|j: int|
                        0 <= j < old(self).areas@[i].data_frames@.len()
                            ==> !final(allocator).outstanding().contains(
                            (#[trigger] old(self).areas@[i].data_frames@[j]).ppn,
                        )
                }),
            !(exists|i: int|
                0 <= i < old(self).areas@.len() && (#[trigger] old(self).areas@[i]).start_vpn
                    == start_vpn.0) ==> final(self).areas@ == old(self).areas@,
            forall|p: usize|
                old(allocator).outstanding().contains(p) && !old(self).is_area_frame_of(p)
                    ==> #[trigger] final(allocator).outstanding().contains(p),
    {
        let n = self.areas.len();
        let mut i: usize = 0;
        while i < n
            invariant
                self.wf(),
                allocator.wf(),
                self.owns(*allocator),
                *self == *old(self),
                *allocator == *old(allocator),
                n == self.areas@.len(),
                i <= n,
                forall|k: int|
                    0 <= k < i ==> (#[trigger] self.areas@[k]).start_vpn != start_vpn.0,
                forall|k: int|
                    0 <= k < old(self).areas@.len() ==> (#[trigger] old(self).areas@[k]).map_type
                        == MapType::Framed,
            decreases n - i,
        {
            if self.areas[i].start_vpn == start_vpn.0 {
                let ghost found = i as int;
                self.teardown_area_at(allocator, i);
                proof {
                    assert forall|p: usize|
                        old(allocator).outstanding().contains(p) && !old(self).is_area_frame_of(
                            p,
                        ) implies #[trigger] allocator.outstanding().contains(p) by {
                        assert(!(exists|j: int|
                            0 <= j < old(self).areas@[found].data_frames@.len() && (
                            #[trigger] old(self).areas@[found].data_frames@[j]).ppn == p));
                    }
                    assert(0 <= found < old(self).areas@.len() && old(
                        self,
                    ).areas@[found].start_vpn == start_vpn.0 && self.areas@ == old(
                        self,
                    ).areas@.remove(found) && forall|j: int|
                        0 <= j < old(self).areas@[found].data_frames@.len()
                            ==> !allocator.outstanding().contains(
                            (#[trigger] old(self).areas@[found].data_frames@[j]).ppn,
                        ));
                }
                return ;
            }
            i = i + 1;
        }
    }
}

/// The two spaces have the same table, the same trampoline, and areas of the
/// same shapes over the same frames; only page contents may differ.
pub open spec fn same_structure(pre: MemorySet, post: MemorySet) -> bool {
    &&& post.page_table == pre.page_table
    &&& post.trampoline_ppn == pre.trampoline_ppn
    &&& post.areas@.len() == pre.areas@.len()
    &&& forall|k: int|
        0 <= k < pre.areas@.len() ==> {
            &&& (#[trigger] post.areas@[k]).start_vpn == pre.areas@[k].start_vpn
            &&& post.areas@[k].end_vpn == pre.areas@[k].end_vpn
            &&& post.areas@[k].map_type == pre.areas@[k].map_type
            &&& post.areas@[k].map_perm == pre.areas@[k].map_perm
            &&& post.areas@[k].data_frames@.len() == pre.areas@[k].data_frames@.len()
            &&& forall|j: int|
                0 <= j < pre.areas@[k].data_frames@.len() ==> (
                #[trigger] post.areas@[k].data_frames@[j]).ppn
                    == pre.areas@[k].data_frames@[j].ppn && post.areas@[k].data_frames@[j].bytes@.len()
                    == pre.areas@[k].data_frames@[j].bytes@.len()
        }
}

/// Writing page contents never moves a frame, so ownership facts carry over.
pub proof fn lemma_same_structure_owns(pre: MemorySet, post: MemorySet, a: StackFrameAllocator)
    requires
        same_structure(pre, post),
        pre.owns(a),
    ensures
        post.owns(a),
{
}

impl MemorySet {
    /// The byte of user memory at `va`, or nothing where no framed area
    /// covers it.
    pub fn read_byte(&self, va: usize) -> (r: Option<u8>)
        requires
            self.wf(),
        ensures
            r == self.byte_at(va as nat),
    {
        let v = va / PAGE_SIZE;
        let off = va % PAGE_SIZE;
        let n = self.areas.len();
        let mut k: usize = 0;
        while k < n
            invariant
                self.wf(),
                n == self.areas@.len(),
                k <= n,
                v == va / PAGE_SIZE,
                off == va % PAGE_SIZE,
                forall|m: int| 0 <= m < k ==> !(#[trigger] self.areas@[m]).contains_vpn(v as nat),
            decreases n - k,
        {
            let a = &self.areas[k];
            if a.start_vpn <= v && v < a.end_vpn {
                proof {
                    self.lemma_area_index_of(k as int, v as nat);
                }
                match a.map_type {
                    MapType::Framed => {
                        return Some(a.data_frames[v - a.start_vpn].bytes[off]);
                    },
                    MapType::Identical => {
                        return None;
                    },
                }
            }
            k = k + 1;
        }
        proof {
            if self.some_area_contains(v as nat) {
                let m = self.area_index_of(v as nat);
                assert(self.areas@[m].contains_vpn(v as nat));
                assert(false);
            }
        }
        None
    }

    /// Store one byte of user memory at `va`. Succeeds exactly where a framed
    /// area covers the address; no other byte and no mapping changes.
    pub fn write_byte(&mut self, va: usize, b: u8) -> (ok: bool)
        requires
            old(self).wf(),
        ensures
            final(self).wf(),
            same_structure(*old(self), *final(self)),
            ok == (old(self).byte_at(va as nat) is Some),
            ok ==> final(self).byte_at(va as nat) == Some(b),
            forall|va2: nat|
                va2 != va as nat ==> #[trigger] final(self).byte_at(va2) == old(self).byte_at(va2),
            !ok ==> final(self).byte_at(va as nat) == old(self).byte_at(va as nat),
    {
        let v = va / PAGE_SIZE;
        let off = va % PAGE_SIZE;
        let n = self.areas.len();
        let mut k: usize = 0;
        while k < n
            invariant
                self.wf(),
                *self == *old(self),
                n == self.areas@.len(),
                k <= n,
                v == va / PAGE_SIZE,
                off == va % PAGE_SIZE,
                forall|m: int| 0 <= m < k ==> !(#[trigger] self.areas@[m]).contains_vpn(v as nat),
            decreases n - k,
        {
            let framed = match self.areas[k].map_type {
                MapType::Framed => true,
                MapType::Identical => false,
            };
            if self.areas[k].start_vpn <= v && v < self.areas[k].end_vpn {
                proof {
                    self.lemma_area_index_of(k as int, v as nat);
                }
                if !framed {
                    return false;
                }
                let idx = v - self.areas[k].start_vpn;
                let ghost pre = *self;
                self.areas[k].data_frames[idx].bytes[off] = b;
                proof {
                    let post = *self;
                    assert(same_structure(pre, post));
                    // well-formedness: shapes and frames are untouched
                    assert forall|i2: int| 0 <= i2 < post.areas@.len() implies (
                    #[trigger] post.areas@[i2]).wf() by {
                        if i2 != k as int {
                            assert(post.areas@[i2] == pre.areas@[i2]);
                        }
                    }
                    assert forall|i2: int, k2: int, v2: nat|
                        0 <= i2 < k2 < post.areas@.len() implies !((
                    #[trigger] post.areas@[i2].contains_vpn(v2)) && (
                    #[trigger] post.areas@[k2].contains_vpn(v2))) by {
                        assert(post.areas@[i2].contains_vpn(v2) == pre.areas@[i2].contains_vpn(v2));
                        assert(post.areas@[k2].contains_vpn(v2) == pre.areas@[k2].contains_vpn(v2));
                    }
                    assert forall|i2: int, v2: nat|
                        0 <= i2 < post.areas@.len() && post.areas@[i2].contains_vpn(
                            v2,
                        ) implies #[trigger] post.area_page_mapped(i2, v2) by {
                        assert(pre.areas@[i2].contains_vpn(v2));
                        assert(pre.area_page_mapped(i2, v2));
                        assert(post.areas@[i2].frame_of(v2) == pre.areas@[i2].frame_of(v2));
                        assert(post.areas@[i2].spec_flags() == pre.areas@[i2].spec_flags());
                    }
                    assert forall|v2: nat|
                        v2 < VPN_LIMIT && !post.some_area_contains(v2) && v2 != TRAMPOLINE_VPN
                            as nat implies #[trigger] post.page_table.mapping_of(v2) is None by {
                        assert(!pre.some_area_contains(v2)) by {
                            if pre.some_area_contains(v2) {
                                let m = pre.area_index_of(v2);
                                assert(pre.areas@[m].contains_vpn(v2));
                                assert(post.areas@[m].contains_vpn(v2));
                            }
                        }
                    }
                    assert(post.wf());
                    post.lemma_area_index_of(k as int, v as nat);
                    // only the addressed byte changes
                    assert(post.byte_at(va as nat) == Some(b));
                    assert forall|va2: nat| va2 != va as nat implies #[trigger] post.byte_at(va2)
                        == pre.byte_at(va2) by {
                        let v2 = va2 / (PAGE_SIZE as nat);
                        if pre.some_area_contains(v2) {
                            let m = pre.area_index_of(v2);
                            assert(pre.areas@[m].contains_vpn(v2));
                            assert(post.areas@[m].contains_vpn(v2));
                            pre.lemma_area_index_of(m, v2);
                            post.lemma_area_index_of(m, v2);
                            if m == k as int && v2 == v as nat {
                                assert(va2 % (PAGE_SIZE as nat) != va as nat % (PAGE_SIZE as nat))
                                    by {
                                    vstd::arithmetic::div_mod::lemma_fundamental_div_mod(
                                        va2 as int,
                                        PAGE_SIZE as int,
                                    );
                                    vstd::arithmetic::div_mod::lemma_fundamental_div_mod(
                                        va as int,
                                        PAGE_SIZE as int,
                                    );
                                }
                            }
                        } else {
                            assert(!post.some_area_contains(v2)) by {
                                if post.some_area_contains(v2) {
                                    let m = post.area_index_of(v2);
                                    assert(post.areas@[m].contains_vpn(v2));
                                    assert(pre.areas@[m].contains_vpn(v2));
                                    assert(pre.some_area_contains(v2));
                                }
                            }
                        }
                    }
                }
                return true;
            }
            k = k + 1;
        }
        proof {
            if self.some_area_contains((va / PAGE_SIZE) as nat) {
                let m = self.area_index_of((va / PAGE_SIZE) as nat);
                assert(self.areas@[m].contains_vpn((va / PAGE_SIZE) as nat));
                assert(false);
            }
        }
        false
    }

    /// Copy `len` bytes of user memory starting at `va`, or nothing if any
    /// byte is uncovered.
    pub fn read_bytes(&self, va: usize, len: usize) -> (r: Option<Vec<u8>>)
        requires
            self.wf(),
            va + len <= usize::MAX,
        ensures
            match r {
                Some(bs) => {
                    &&& bs@.len() == len
                    &&& forall|i: int|
                        0 <= i < len ==> Some(#[trigger] bs@[i]) == self.byte_at((va + i) as nat)
                },
                None => exists|i: int|
                    0 <= i < len && #[trigger] self.byte_at((va + i) as nat) is None,
            },
    {
        let mut bs: Vec<u8> = Vec::new();
        let mut i: usize = 0;
        while i < len
            invariant
                self.wf(),
                va + len <= usize::MAX,
                i <= len,
                bs@.len() == i,
                forall|j: int|
                    0 <= j < i ==> Some(#[trigger] bs@[j]) == self.byte_at((va + j) as nat),
            decreases len - i,
        {
            match self.read_byte(va + i) {
                Some(b) => {
                    bs.push(b);
                },
                None => {
                    proof {
                        let ii = i as int;
                        assert(0 <= ii < len);
                        assert(self.byte_at((va + ii) as nat) is None);
                    }
                    return None;
                },
            }
            i = i + 1;
        }
        Some(bs)
    }

    /// Store `data` into user memory at `va`. Either every byte lands, or —
    /// when some byte of the range is uncovered — a prefix may land and
    /// failure is reported, as the kernel would halt the offender anyway.
    pub fn write_bytes(&mut self, va: usize, data: &Vec<u8>) -> (ok: bool)
        requires
            old(self).wf(),
            va + data@.len() <= usize::MAX,
        ensures
            final(self).wf(),
            same_structure(*old(self), *final(self)),
            ok ==> forall|i: int|
                0 <= i < data@.len() ==> #[trigger] final(self).byte_at((va + i) as nat) == Some(
                    data@[i],
                ),
            forall|va2: nat|
                !(va <= va2 < va + data@.len()) ==> #[trigger] final(self).byte_at(va2) == old(
                    self,
                ).byte_at(va2),
            ok == (forall|i: int|
                0 <= i < data@.len() ==> #[trigger] old(self).byte_at((va + i) as nat) is Some),
    {
        let len = data.len();
        let mut i: usize = 0;
        while i < len
            invariant
                self.wf(),
                len == data@.len(),
                va + len <= usize::MAX,
                i <= len,
                same_structure(*old(self), *self),
                forall|j: int|
                    0 <= j < i ==> #[trigger] self.byte_at((va + j) as nat) == Some(data@[j]),
                forall|va2: nat|
                    !(va <= va2 < va + i) ==> #[trigger] self.byte_at(va2) == old(self).byte_at(
                        va2,
                    ),
                forall|j: int|
                    0 <= j < i ==> #[trigger] old(self).byte_at((va + j) as nat) is Some,
            decreases len - i,
        {
            let ok = self.write_byte(va + i, data[i]);
            if !ok {
                proof {
                    assert(old(self).byte_at((va + i) as nat) is None);
                }
                return false;
            }
            i = i + 1;
        }
        true
    }

    /// Store `val` little-endian in the eight bytes at `va`. Succeeds exactly
    /// when the whole range is covered; nothing else changes either way.
    pub fn write_u64(&mut self, va: usize, val: u64) -> (ok: bool)
        requires
            old(self).wf(),
            va + 8 <= usize::MAX,
        ensures
            final(self).wf(),
            same_structure(*old(self), *final(self)),
            ok == (forall|j: int|
                0 <= j < 8 ==> #[trigger] old(self).byte_at((va + j) as nat) is Some),
            ok ==> forall|j: int|
                0 <= j < 8 ==> #[trigger] final(self).byte_at((va + j) as nat) == Some(
                    u64_le_byte(val, j),
                ),
            forall|va2: nat|
                !(va <= va2 < va + 8) ==> #[trigger] final(self).byte_at(va2) == old(self).byte_at(
                    va2,
                ),
    {
        let mut data: Vec<u8> = Vec::new();
        let mut k: usize = 0;
        while k < 8
            invariant
                k <= 8,
                data@.len() == k,
                forall|j: int| 0 <= j < k ==> #[trigger] data@[j] == u64_le_byte(val, j),
            decreases 8 - k,
        {
            let ghost kk = k as int;
            let b: u8 = ((val >> ((8 * k) as u64)) & 0xFF) as u8;
            proof {
                let v = val;
                let sh = (8 * k) as u64;
                assert(((v >> sh) & 0xFFu64) < 256) by (bit_vector);
            }
            data.push(b);
            k = k + 1;
        }
        self.write_bytes(va, &data)
    }

    /// Read the NUL-terminated string at `va`: the bytes up to but not
    /// including the first zero. Nothing is returned exactly when an
    /// uncovered address — or the very end of the address space — is reached
    /// before any zero byte.
    pub fn read_c_string(&self, va: usize) -> (r: Option<Vec<u8>>)
        requires
            self.wf(),
        ensures
            match r {
                Some(bs) => {
                    &&& va + bs@.len() <= usize::MAX
                    &&& forall|i: int|
                        0 <= i < bs@.len() ==> Some(#[trigger] bs@[i]) == self.byte_at(
                            (va + i) as nat,
                        ) && bs@[i] != 0u8
                    &&& self.byte_at((va + bs@.len()) as nat) == Some(0u8)
                },
                None => exists|a: nat|
                    {
                        &&& va <= a <= usize::MAX
                        &&& (forall|b: nat|
                            va <= b < a ==> #[trigger] self.byte_at(b) is Some && self.byte_at(b)
                                != Some(0u8))
                        &&& (#[trigger] self.byte_at(a) is None || (a == usize::MAX
                            && self.byte_at(a) != Some(0u8)))
                    },
            },
    {
        let mut bs: Vec<u8> = Vec::new();
        let mut cur: usize = va;
        loop
            invariant
                self.wf(),
                va + bs@.len() == cur,
                cur <= usize::MAX,
                forall|i: int|
                    0 <= i < bs@.len() ==> Some(#[trigger] bs@[i]) == self.byte_at((va + i) as nat)
                        && bs@[i] != 0u8,
            decreases usize::MAX - cur,
        {
            match self.read_byte(cur) {
                Some(b) => {
                    if b == 0 {
                        return Some(bs);
                    }
                    if cur == usize::MAX {
                        proof {
                            assert(cur as nat == usize::MAX as nat);
                            assert(self.byte_at(cur as nat) == Some(b));
                            assert forall|b2: nat| va <= b2 < cur as nat implies #[trigger] self.byte_at(
                                b2,
                            ) is Some && self.byte_at(b2) != Some(0u8) by {
                                let i = b2 - va;
                                assert(Some(bs@[i]) == self.byte_at((va + i) as nat));
                            }
                        }
                        return None;
                    }
                    bs.push(b);
                    cur = cur + 1;
                },
                None => {
                    proof {
                        assert(self.byte_at(cur as nat) is None);
                        assert forall|b2: nat| va <= b2 < cur as nat implies #[trigger] self.byte_at(
                            b2,
                        ) is Some && self.byte_at(b2) != Some(0u8) by {
                            let i = b2 - va;
                            assert(Some(bs@[i]) == self.byte_at((va + i) as nat));
                        }
                    }
                    return None;
                },
            }
        }
    }
}

/// Byte `k` of the little-endian image of a 64-bit value.
pub open spec fn u64_le_byte(v: u64, k: int) -> u8 {
    ((v >> (8 * k) as u64) & 0xFF) as u8
}

/// A page of zeroed bytes.
fn zeroed_page() -> (r: Vec<u8>)
    ensures
        r@.len() == PAGE_SIZE,
        forall|j: int| 0 <= j < PAGE_SIZE ==> r@[j] == 0u8,
{
    let mut v: Vec<u8> = Vec::new();
    let mut i: usize = 0;
    while i < PAGE_SIZE
        invariant
            i <= PAGE_SIZE,
            v@.len() == i,
            forall|j: int| 0 <= j < i ==> v@[j] == 0u8,
        decreases PAGE_SIZE - i,
    {
        v.push(0u8);
        i = i + 1;
    }
    v
}

/// A copy of a page of bytes.
fn copied_page(src: &Vec<u8>) -> (r: Vec<u8>)
    ensures
        r@ == src@,
{
    let mut v: Vec<u8> = Vec::new();
    let n = src.len();
    let mut i: usize = 0;
    while i < n
        invariant
            i <= n,
            n == src@.len(),
            v@.len() == i,
            forall|j: int| 0 <= j < i ==> v@[j] == src@[j],
        decreases n - i,
    {
        v.push(src[i]);
        i = i + 1;
    }
    proof {
        assert(v@ =~= src@);
    }
    v
}

} // verus!
