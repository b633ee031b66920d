//! SV39 three-level page table.
//!
//! A `PageTable` owns the frames of the table itself: the root node and every
//! intermediate node allocated on demand. Each node is one physical page of
//! 512 entries. Leaf entries map a virtual page to a physical page with
//! permission flags; intermediate entries carry exactly the `V` flag and the
//! physical page number of the next-level node.

use vstd::prelude::*;

use crate::address::{
    lemma_vpn_indexes_unique, spec_vpn_index, PhysAddr, PhysPageNum, VirtAddr, VirtPageNum,
    PPN_LIMIT, VPN_LIMIT,
};
use crate::config::PAGE_SIZE;
use crate::frame_allocator::StackFrameAllocator;

verus! {

pub const PTE_V: u8 = 0x01;
pub const PTE_R: u8 = 0x02;
pub const PTE_W: u8 = 0x04;
pub const PTE_X: u8 = 0x08;
pub const PTE_U: u8 = 0x10;
pub const PTE_G: u8 = 0x20;
pub const PTE_A: u8 = 0x40;
pub const PTE_D: u8 = 0x80;

/// The eight SV39 leaf-entry flag bits, `V R W X U G A D` from bit 0 up.
#[derive(Clone, Copy, PartialEq, Eq, Structural, Debug)]
pub struct PTEFlags {
    pub bits: u8,
}

impl PTEFlags {
    pub fn empty() -> (r: PTEFlags)
        ensures
            r.bits == 0,
    {
        PTEFlags { bits: 0 }
    }

    /// Every bit of the byte is a defined flag, so any byte is a flag set.
    pub fn from_bits(bits: u8) -> (r: PTEFlags)
        ensures
            r.bits == bits,
    {
        PTEFlags { bits }
    }

    pub fn union(self, other: PTEFlags) -> (r: PTEFlags)
        ensures
            r.bits == self.bits | other.bits,
    {
        PTEFlags { bits: self.bits | other.bits }
    }

    pub fn contains(self, other: PTEFlags) -> (r: bool)
        ensures
            r == (self.bits & other.bits == other.bits),
    {
        self.bits & other.bits == other.bits
    }
}

/// One 64-bit page-table entry: bits 10..54 hold the physical page number,
/// bits 0..8 the flags.
#[derive(Clone, Copy, PartialEq, Eq, Structural, Debug)]
pub struct PageTableEntry {
    pub bits: u64,
}

impl PageTableEntry {
    /// The physical page number packed in bits 10..54.
    pub open spec fn spec_ppn(self) -> u64 {
        (self.bits >> 10) & 0xFFF_FFFF_FFFFu64
    }

    /// The flag byte packed in bits 0..8.
    pub open spec fn spec_flags(self) -> u8 {
        (self.bits & 0xFF) as u8
    }

    pub open spec fn spec_is_valid(self) -> bool {
        self.bits & 0x01 != 0
    }

    pub fn new(ppn: PhysPageNum, flags: PTEFlags) -> (r: PageTableEntry)
        requires
            (ppn.0 as u64) < PPN_LIMIT,
        ensures
            r.bits == ((ppn.0 as u64) << 10u64) | (flags.bits as u64),
            r.spec_ppn() == ppn.0 as u64,
            r.spec_flags() == flags.bits,
            r.spec_is_valid() == (flags.bits & 0x01 != 0),
    {
        let p: u64 = ppn.0 as u64;
        let f: u64 = flags.bits as u64;
        let bits: u64 = (p << 10u64) | f;
        proof {
            assert((((p << 10u64) | f) >> 10u64) & 0xFFF_FFFF_FFFFu64 == p && (((p << 10u64) | f)
                & 0xFFu64) == f && ((((p << 10u64) | f) & 0x01u64 != 0) == (f & 0x01u64 != 0)))
                by (bit_vector)
                requires
                    p < 0x1000_0000_0000u64,
                    f < 0x100u64,
            ;
        }
        PageTableEntry { bits }
    }

    pub fn empty() -> (r: PageTableEntry)
        ensures
            r.bits == 0,
            !r.spec_is_valid(),
            r.spec_ppn() == 0,
            r.spec_flags() == 0,
    {
        proof {
            assert((0u64 >> 10u64) & 0xFFF_FFFF_FFFFu64 == 0 && (0u64 & 0xFFu64) == 0 && (0u64
                & 0x01u64) == 0) by (bit_vector);
        }
        PageTableEntry { bits: 0 }
    }

    pub fn ppn(&self) -> (r: PhysPageNum)
        requires
            self.spec_ppn() <= usize::MAX as u64,
        ensures
            r.0 as u64 == self.spec_ppn(),
    {
        let masked: u64 = (self.bits >> 10u64) & 0xFFF_FFFF_FFFFu64;
        PhysPageNum(masked as usize)
    }

    pub fn flags(&self) -> (r: PTEFlags)
        ensures
            r.bits == self.spec_flags(),
    {
        let b: u64 = self.bits;
        proof {
            assert(b & 0xFFu64 < 0x100u64) by (bit_vector);
        }
        PTEFlags { bits: (b & 0xFF) as u8 }
    }

    pub fn is_valid(&self) -> (r: bool)
        ensures
            r == self.spec_is_valid(),
    {
        self.bits & 0x01 != 0
    }

    pub fn readable(&self) -> (r: bool)
        ensures
            r == (self.spec_flags() & PTE_R != 0),
    {
        let b: u64 = self.bits;
        proof {
            assert((b & 0x02u64 != 0) == (((b & 0xFFu64) as u8) & 0x02u8 != 0)) by (bit_vector);
        }
        b & 0x02 != 0
    }

    pub fn writable(&self) -> (r: bool)
        ensures
            r == (self.spec_flags() & PTE_W != 0),
    {
        let b: u64 = self.bits;
        proof {
            assert((b & 0x04u64 != 0) == (((b & 0xFFu64) as u8) & 0x04u8 != 0)) by (bit_vector);
        }
        b & 0x04 != 0
    }

    pub fn executable(&self) -> (r: bool)
        ensures
            r == (self.spec_flags() & PTE_X != 0),
    {
        let b: u64 = self.bits;
        proof {
            assert((b & 0x08u64 != 0) == (((b & 0xFFu64) as u8) & 0x08u8 != 0)) by (bit_vector);
        }
        b & 0x08 != 0
    }
}

/// One frame of the table: its physical page number, its depth in the tree
/// (0 for the root, 2 for the level whose entries are leaves), and its 512
/// entries.
pub struct PtNode {
    pub ppn: usize,
    pub level: Ghost<nat>,
    pub entries: Vec<PageTableEntry>,
}

/// The table: the root's physical page number and the owned frames.
/// `nodes[0]` is the root.
pub struct PageTable {
    pub root_ppn: PhysPageNum,
    pub nodes: Vec<PtNode>,
}

/// A vector of 512 cleared entries, the content of a fresh table frame.
fn empty_node_entries() -> (r: Vec<PageTableEntry>)
    ensures
        r@.len() == 512,
        forall|j: int| 0 <= j < 512 ==> !(#[trigger] r@[j]).spec_is_valid() && r@[j].bits == 0,
{
    let mut v: Vec<PageTableEntry> = Vec::new();
    let mut i: usize = 0;
    while i < 512
        invariant
            i <= 512,
            v@.len() == i,
            forall|j: int| 0 <= j < i ==> !(#[trigger] v@[j]).spec_is_valid() && v@[j].bits == 0,
        decreases 512 - i,
    {
        v.push(PageTableEntry::empty());
        i = i + 1;
    }
    v
}

impl PageTable {
    /// Whether some owned node sits on physical page `ppn`.
    pub open spec fn has_node(self, ppn: u64) -> bool {
        exists|k: int| 0 <= k < self.nodes@.len() && self.nodes@[k].ppn as u64 == ppn
    }

    /// The index of the owned node on physical page `ppn`.
    pub open spec fn node_index(self, ppn: u64) -> int {
        choose|k: int| 0 <= k < self.nodes@.len() && self.nodes@[k].ppn as u64 == ppn
    }

    /// Whether `(i, j)` names a next-level pointer: a valid entry of a
    /// non-leaf-level node.
    pub open spec fn is_pointer(self, i: int, j: int) -> bool {
        &&& 0 <= i < self.nodes@.len()
        &&& self.nodes@[i].level@ < 2
        &&& 0 <= j < 512
        &&& self.nodes@[i].entries@[j].spec_is_valid()
    }

    /// The step the walk takes at slot `j` of node `n`: the index of the
    /// next-level node, if the entry is valid and leads to an owned node.
    pub open spec fn child_spec(self, n: int, j: int) -> Option<int> {
        let e = self.nodes@[n].entries@[j];
        if e.spec_is_valid() && self.has_node(e.spec_ppn()) {
            Some(self.node_index(e.spec_ppn()))
        } else {
            None
        }
    }

    /// The node index reached from the root after `level` pointer steps on
    /// the path of `vpn`: the root for 0, then one step per level.
    pub open spec fn path_node(self, vpn: nat, level: nat) -> Option<int>
        decreases level,
    {
        if level == 0 {
            Some(0)
        } else {
            match self.path_node(vpn, (level - 1) as nat) {
                None => None,
                Some(n) => self.child_spec(n, spec_vpn_index(vpn, level - 1) as int),
            }
        }
    }

    /// The leaf entry of `vpn`, if all intermediate levels exist. The entry
    /// itself may still be invalid.
    pub open spec fn pte_of(self, vpn: nat) -> Option<PageTableEntry> {
        match self.path_node(vpn, 2) {
            None => None,
            Some(n) => Some(self.nodes@[n].entries@[spec_vpn_index(vpn, 2) as int]),
        }
    }

    /// The mapping of `vpn`: physical page and flags of a valid leaf entry.
    pub open spec fn mapping_of(self, vpn: nat) -> Option<(u64, u8)> {
        match self.pte_of(vpn) {
            Some(e) => if e.spec_is_valid() {
                Some((e.spec_ppn(), e.spec_flags()))
            } else {
                None
            },
            None => None,
        }
    }

    /// Structure kept by every operation.
    pub open spec fn wf(self) -> bool {
        &&& self.nodes@.len() >= 1
        &&& self.nodes@[0].ppn == self.root_ppn.0
        &&& self.nodes@[0].level@ == 0
        &&& forall|i: int|
            0 <= i < self.nodes@.len() ==> (#[trigger] self.nodes@[i]).entries@.len() == 512
        &&& forall|i: int| 1 <= i < self.nodes@.len() ==> 1 <= (#[trigger] self.nodes@[i]).level@ <= 2
        &&& forall|i: int, k: int|
            0 <= i < k < self.nodes@.len() ==> (#[trigger] self.nodes@[i]).ppn != (
            #[trigger] self.nodes@[k]).ppn
        // every pointer entry carries exactly the V flag and leads to an owned
        // node one level down
        &&& forall|i: int, j: int|
            #[trigger] self.is_pointer(i, j) ==> self.nodes@[i].entries@[j].spec_flags() == PTE_V
                && self.has_node(self.nodes@[i].entries@[j].spec_ppn())
                && self.nodes@[self.node_index(self.nodes@[i].entries@[j].spec_ppn())].level@
                == self.nodes@[i].level@ + 1
        // no two pointer entries lead to the same node
        &&& forall|i1: int, j1: int, i2: int, j2: int|
            #[trigger] self.is_pointer(i1, j1) && #[trigger] self.is_pointer(i2, j2)
                && self.nodes@[i1].entries@[j1].spec_ppn() == self.nodes@[i2].entries@[j2].spec_ppn()
                ==> i1 == i2 && j1 == j2
    }

    /// All table frames are pages the allocator handed out and has not
    /// reclaimed.
    pub open spec fn frames_outstanding(self, a: StackFrameAllocator) -> bool {
        forall|i: int|
            0 <= i < self.nodes@.len() ==> a.outstanding().contains(
                (#[trigger] self.nodes@[i]).ppn,
            )
    }

    /// The unique owned node on a given page is found at its own index.
    pub proof fn lemma_node_index_of(self, k: int)
        requires
            self.wf(),
            0 <= k < self.nodes@.len(),
        ensures
            self.has_node(self.nodes@[k].ppn as u64),
            self.node_index(self.nodes@[k].ppn as u64) == k,
    {
        let p = self.nodes@[k].ppn as u64;
        assert(self.has_node(p));
        let k2 = self.node_index(p);
        assert(0 <= k2 < self.nodes@.len() && self.nodes@[k2].ppn as u64 == p);
        if k2 != k {
            assert(self.nodes@[k2].ppn == self.nodes@[k].ppn);
            assert(false);
        }
    }

    /// Make a table with a cleared root frame; it maps nothing.
    pub fn new(allocator: &mut StackFrameAllocator) -> (r: PageTable)
        requires
            old(allocator).wf(),
            old(allocator).free_count() >= 1,
        ensures
            final(allocator).wf(),
            r.wf(),
            r.frames_outstanding(*final(allocator)),
            old(allocator).outstanding().subset_of(final(allocator).outstanding()),
            final(allocator).start == old(allocator).start,
            final(allocator).end == old(allocator).end,
            final(allocator).free_count() == old(allocator).free_count() - 1,
            forall|v: nat| v < VPN_LIMIT ==> #[trigger] r.mapping_of(v) is None,
            r.nodes@.len() == 1,
            forall|k: int|
                0 <= k < r.nodes@.len() ==> !old(allocator).outstanding().contains(
                    (#[trigger] r.nodes@[k]).ppn,
                ),
    {
        let frame = match allocator.allocate() {
            Some(f) => f,
            None => {
                proof {
                    assert(false);
                }
                vstd::pervasive::unreached()
            },
        };
        let root = PtNode { ppn: frame.ppn.0, level: Ghost(0nat), entries: empty_node_entries() };
        let mut nodes: Vec<PtNode> = Vec::new();
        nodes.push(root);
        let r = PageTable { root_ppn: frame.ppn, nodes };
        proof {
            assert forall|v: nat| v < VPN_LIMIT implies #[trigger] r.mapping_of(v) is None by {
                assert(!r.nodes@[0].entries@[spec_vpn_index(v, 0) as int].spec_is_valid());
            }
        }
        r
    }

    /// Find the owned node on page `ppn` by linear scan.
    fn find_node(&self, ppn: u64) -> (r: Option<usize>)
        requires
            self.wf(),
        ensures
            match r {
                Some(i) => i < self.nodes@.len() && self.nodes@[i as int].ppn as u64 == ppn
                    && self.has_node(ppn) && self.node_index(ppn) == i,
                None => !self.has_node(ppn),
            },
    {
        let n = self.nodes.len();
        let mut i: usize = 0;
        while i < n
            invariant
                self.wf(),
                n == self.nodes@.len(),
                i <= n,
                forall|m: int| 0 <= m < i ==> (#[trigger] self.nodes@[m]).ppn as u64 != ppn,
            decreases n - i,
        {
            if self.nodes[i].ppn as u64 == ppn {
                proof {
                    self.lemma_node_index_of(i as int);
                }
                return Some(i);
            }
            i = i + 1;
        }
        proof {
            if self.has_node(ppn) {
                let k = choose|k: int|
                    0 <= k < self.nodes@.len() && self.nodes@[k].ppn as u64 == ppn;
                assert(self.nodes@[k].ppn as u64 != ppn);
            }
        }
        None
    }

    /// The leaf entry on the path of `vpn`, or nothing if an intermediate
    /// level is missing.
    pub fn translate(&self, vpn: VirtPageNum) -> (r: Option<PageTableEntry>)
        requires
            self.wf(),
        ensures
            r == self.pte_of(vpn.0 as nat),
    {
        match self.find_pte_loc(vpn) {
            Some((n, s)) => Some(self.nodes[n].entries[s]),
            None => None,
        }
    }

    /// Walk the existing levels to the leaf slot of `vpn`; create nothing.
    fn find_pte_loc(&self, vpn: VirtPageNum) -> (r: Option<(usize, usize)>)
        requires
            self.wf(),
        ensures
            match r {
                Some((n, s)) => {
                    &&& self.path_node(vpn.0 as nat, 2) == Some(n as int)
                    &&& n < self.nodes@.len()
                    &&& s < 512
                    &&& s == spec_vpn_index(vpn.0 as nat, 2)
                    &&& self.nodes@[n as int].level@ == 2
                    &&& self.pte_of(vpn.0 as nat) == Some(self.nodes@[n as int].entries@[s as int])
                },
                None => self.path_node(vpn.0 as nat, 2) is None && self.pte_of(vpn.0 as nat) is None,
            },
    {
        let idxs = vpn.indexes();
        let ghost v = vpn.0 as nat;
        // level 0: the root
        let e0 = self.nodes[0].entries[idxs[0]];
        proof {
            assert(self.path_node(v, 0) == Some(0int));
        }
        if !e0.is_valid() {
            proof {
                assert(self.path_node(v, 1) is None);
                assert(self.path_node(v, 2) is None);
            }
            return None;
        }
        proof {
            assert(self.is_pointer(0, spec_vpn_index(v, 0) as int));
        }
        let n1 = match self.find_node(e0.ppn().0 as u64) {
            Some(n) => n,
            None => {
                proof {
                    assert(false);
                }
                return None;
            },
        };
        proof {
            assert(self.path_node(v, 1) == Some(n1 as int));
            assert(self.nodes@[n1 as int].level@ == 1);
        }
        // level 1
        let e1 = self.nodes[n1].entries[idxs[1]];
        if !e1.is_valid() {
            proof {
                assert(self.path_node(v, 2) is None);
            }
            return None;
        }
        proof {
            assert(self.is_pointer(n1 as int, spec_vpn_index(v, 1) as int));
        }
        let n2 = match self.find_node(e1.ppn().0 as u64) {
            Some(n) => n,
            None => {
                proof {
                    assert(false);
                }
                return None;
            },
        };
        proof {
            assert(self.path_node(v, 2) == Some(n2 as int));
            assert(self.nodes@[n2 as int].level@ == 2);
        }
        Some((n2, idxs[2]))
    }

    /// A node on a walk path sits at the depth the walk has taken.
    pub proof fn lemma_path_level(self, vpn: nat, level: nat)
        requires
            self.wf(),
            level <= 2,
            self.path_node(vpn, level) is Some,
        ensures
            0 <= self.path_node(vpn, level)->Some_0 < self.nodes@.len(),
            self.nodes@[self.path_node(vpn, level)->Some_0].level@ == level,
        decreases level,
    {
        if level != 0 {
            self.lemma_path_level(vpn, (level - 1) as nat);
            let n = self.path_node(vpn, (level - 1) as nat)->Some_0;
            let j = spec_vpn_index(vpn, level - 1) as int;
            assert(self.is_pointer(n, j));
        }
    }

    /// Two virtual pages whose walks share the leaf-level node share all
    /// their intermediate indexes: every node is reached along one path only.
    pub proof fn lemma_path_injective(self, v1: nat, v2: nat)
        requires
            self.wf(),
            self.path_node(v1, 2) is Some,
            self.path_node(v1, 2) == self.path_node(v2, 2),
        ensures
            spec_vpn_index(v1, 0) == spec_vpn_index(v2, 0),
            spec_vpn_index(v1, 1) == spec_vpn_index(v2, 1),
    {
        self.lemma_path_level(v1, 1);
        self.lemma_path_level(v2, 1);
        let m1 = self.path_node(v1, 1)->Some_0;
        let m2 = self.path_node(v2, 1)->Some_0;
        let j1 = spec_vpn_index(v1, 1) as int;
        let j2 = spec_vpn_index(v2, 1) as int;
        assert(self.is_pointer(m1, j1));
        assert(self.is_pointer(m2, j2));
        let t = self.path_node(v1, 2)->Some_0;
        self.lemma_node_index_of(t);
        assert(self.nodes@[m1].entries@[j1].spec_ppn() == self.nodes@[t].ppn as u64);
        assert(self.nodes@[m2].entries@[j2].spec_ppn() == self.nodes@[t].ppn as u64);
        assert(m1 == m2 && j1 == j2);
        let k1 = spec_vpn_index(v1, 0) as int;
        let k2 = spec_vpn_index(v2, 0) as int;
        assert(self.path_node(v1, 0) == Some(0int));
        assert(self.path_node(v2, 0) == Some(0int));
        assert(self.path_node(v1, 1) == self.child_spec(0, k1));
        assert(self.path_node(v2, 1) == self.child_spec(0, k2));
        assert(self.is_pointer(0, k1));
        assert(self.is_pointer(0, k2));
        self.lemma_node_index_of(m1);
        assert(self.nodes@[0].entries@[k1].spec_ppn() == self.nodes@[m1].ppn as u64);
        assert(self.nodes@[0].entries@[k2].spec_ppn() == self.nodes@[m1].ppn as u64);
    }

    /// The walk steps the same way in two tables that agree on a slot and on
    /// the placement of the nodes of the first.
    proof fn lemma_child_spec_preserved(pre: PageTable, post: PageTable, i: int, j: int)
        requires
            pre.wf(),
            0 <= i < pre.nodes@.len(),
            pre.nodes@[i].level@ < 2,
            0 <= j < 512,
            post.nodes@.len() >= pre.nodes@.len(),
            forall|k: int, k2: int|
                0 <= k < k2 < post.nodes@.len() ==> (#[trigger] post.nodes@[k]).ppn != (
                #[trigger] post.nodes@[k2]).ppn,
            forall|k: int|
                0 <= k < pre.nodes@.len() ==> (#[trigger] post.nodes@[k]).ppn == pre.nodes@[k].ppn,
            post.nodes@[i].entries@[j] == pre.nodes@[i].entries@[j],
        ensures
            pre.child_spec(i, j) is Some ==> post.child_spec(i, j) == pre.child_spec(i, j),
    {
        let e = pre.nodes@[i].entries@[j];
        if e.spec_is_valid() && pre.has_node(e.spec_ppn()) {
            assert(pre.is_pointer(i, j));
            let k = pre.node_index(e.spec_ppn());
            assert(0 <= k < pre.nodes@.len() && pre.nodes@[k].ppn as u64 == e.spec_ppn());
            assert(post.nodes@[k].ppn as u64 == e.spec_ppn());
            assert(post.has_node(e.spec_ppn()));
            let k2 = post.node_index(e.spec_ppn());
            assert(0 <= k2 < post.nodes@.len() && post.nodes@[k2].ppn as u64 == e.spec_ppn());
            if k2 != k {
                assert(post.nodes@[k2].ppn == post.nodes@[k].ppn);
                assert(false);
            }
        }
    }

    /// Write a leaf entry in place. Only the one virtual page whose walk ends
    /// at this slot changes its translation.
    fn set_leaf(&mut self, n: usize, s: usize, pte: PageTableEntry)
        requires
            old(self).wf(),
            n < old(self).nodes@.len(),
            old(self).nodes@[n as int].level@ == 2,
            s < 512,
        ensures
            final(self).wf(),
            final(self).root_ppn == old(self).root_ppn,
            final(self).nodes@.len() == old(self).nodes@.len(),
            forall|i: int|
                0 <= i < old(self).nodes@.len() ==> (#[trigger] final(self).nodes@[i]).ppn == old(
                    self,
                ).nodes@[i].ppn && final(self).nodes@[i].level@ == old(self).nodes@[i].level@,
            final(self).nodes@[n as int].entries@[s as int] == pte,
            forall|v: nat| final(self).path_node(v, 1) == old(self).path_node(v, 1),
            forall|v: nat| final(self).path_node(v, 2) == old(self).path_node(v, 2),
            forall|v: nat|
                (old(self).path_node(v, 2) == Some(n as int) && spec_vpn_index(v, 2) == s as nat)
                    ==> #[trigger] final(self).pte_of(v) == Some(pte),
            forall|v: nat|
                !(old(self).path_node(v, 2) == Some(n as int) && spec_vpn_index(v, 2) == s as nat)
                    ==> #[trigger] final(self).pte_of(v) == old(self).pte_of(v),
    {
        proof {
            assert(n as int != 0) by {
                assert(old(self).nodes@[0].level@ == 0);
            }
        }
        self.nodes[n].entries[s] = pte;
        proof {
            let pre = *old(self);
            let post = *self;
            assert(forall|i: int|
                0 <= i < pre.nodes@.len() && i != n as int ==> post.nodes@[i] == pre.nodes@[i]);
            assert(post.nodes@[n as int].entries@ == pre.nodes@[n as int].entries@.update(
                s as int,
                pte,
            ));
            // the changed node is at leaf level, so it is no pointer source and
            // every pointer entry is unchanged
            assert forall|i: int, j: int| post.is_pointer(i, j) implies pre.is_pointer(i, j)
                && post.nodes@[i].entries@[j] == pre.nodes@[i].entries@[j] by {
                assert(i != n as int);
            }
            assert forall|p: u64| pre.has_node(p) implies post.has_node(p) by {
                let k = choose|k: int|
                    0 <= k < pre.nodes@.len() && pre.nodes@[k].ppn as u64 == p;
                assert(post.nodes@[k].ppn as u64 == p);
            }
            assert(post.wf());
            // walks are unchanged
            assert forall|v: nat| post.path_node(v, 1) == pre.path_node(v, 1) by {
                let i0 = spec_vpn_index(v, 0) as int;
                assert(pre.path_node(v, 0) == Some(0int));
                assert(post.path_node(v, 0) == Some(0int));
                assert(post.nodes@[0].entries@[i0] == pre.nodes@[0].entries@[i0]);
                PageTable::lemma_child_spec_preserved(pre, post, 0, i0);
                if pre.child_spec(0, i0) is None {
                    assert(!pre.nodes@[0].entries@[i0].spec_is_valid() || !pre.has_node(
                        pre.nodes@[0].entries@[i0].spec_ppn(),
                    ));
                    if pre.nodes@[0].entries@[i0].spec_is_valid() {
                        assert(pre.is_pointer(0, i0));
                        assert(false);
                    }
                    assert(post.child_spec(0, i0) is None);
                }
            }
            assert forall|v: nat| post.path_node(v, 2) == pre.path_node(v, 2) by {
                let i1 = spec_vpn_index(v, 1) as int;
                assert(post.path_node(v, 1) == pre.path_node(v, 1));
                if pre.path_node(v, 1) is Some {
                    let m = pre.path_node(v, 1)->Some_0;
                    pre.lemma_path_level(v, 1);
                    assert(m != n as int);
                    assert(post.nodes@[m].entries@[i1] == pre.nodes@[m].entries@[i1]);
                    PageTable::lemma_child_spec_preserved(pre, post, m, i1);
                    if pre.child_spec(m, i1) is None {
                        if pre.nodes@[m].entries@[i1].spec_is_valid() {
                            assert(pre.is_pointer(m, i1));
                            assert(false);
                        }
                        assert(post.child_spec(m, i1) is None);
                    }
                }
            }
            assert forall|v: nat|
                !(pre.path_node(v, 2) == Some(n as int) && spec_vpn_index(v, 2)
                    == s as nat) implies #[trigger] post.pte_of(v) == pre.pte_of(v) by {
                if pre.path_node(v, 2) is Some {
                    let t = pre.path_node(v, 2)->Some_0;
                    pre.lemma_path_level(v, 2);
                    if t == n as int {
                        assert(spec_vpn_index(v, 2) != s as nat);
                        assert(post.nodes@[t].entries@[spec_vpn_index(v, 2) as int]
                            == pre.nodes@[t].entries@[spec_vpn_index(v, 2) as int]);
                    } else {
                        assert(post.nodes@[t] == pre.nodes@[t]);
                    }
                }
            }
        }
    }

    /// Step to the child of `(node_idx, slot)`, creating a cleared next-level
    /// node — taking one frame — when the entry is empty. No translation of
    /// any virtual page changes.
    fn get_or_create_child(
        &mut self,
        allocator: &mut StackFrameAllocator,
        node_idx: usize,
        slot: usize,
    ) -> (r: usize)
        requires
            old(self).wf(),
            old(allocator).wf(),
            old(self).frames_outstanding(*old(allocator)),
            node_idx < old(self).nodes@.len(),
            old(self).nodes@[node_idx as int].level@ < 2,
            slot < 512,
            old(allocator).free_count() >= 1,
            old(allocator).end as u64 <= PPN_LIMIT,
        ensures
            final(self).wf(),
            final(allocator).wf(),
            final(self).frames_outstanding(*final(allocator)),
            final(allocator).start == old(allocator).start,
            final(allocator).end == old(allocator).end,
            final(allocator).free_count() >= old(allocator).free_count() - 1,
            old(allocator).outstanding().subset_of(final(allocator).outstanding()),
            final(self).root_ppn == old(self).root_ppn,
            r < final(self).nodes@.len(),
            final(self).nodes@[r as int].level@ == old(self).nodes@[node_idx as int].level@ + 1,
            final(self).child_spec(node_idx as int, slot as int) == Some(r as int),
            final(self).nodes@.len() >= old(self).nodes@.len(),
            forall|i: int|
                0 <= i < old(self).nodes@.len() ==> (#[trigger] final(self).nodes@[i]).ppn == old(
                    self,
                ).nodes@[i].ppn && final(self).nodes@[i].level@ == old(self).nodes@[i].level@,
            forall|i: int, j: int|
                0 <= i < old(self).nodes@.len() && 0 <= j < 512 && !(i == node_idx as int && j
                    == slot as int) ==> final(self).nodes@[i].entries@[j] == old(
                    self,
                ).nodes@[i].entries@[j],
            forall|v: nat| #[trigger] final(self).mapping_of(v) == old(self).mapping_of(v),
            forall|i: int, j: int|
                0 <= i < old(self).nodes@.len() && old(self).nodes@[i].level@ < 2 && 0 <= j < 512
                    && !(i == node_idx as int && j == slot as int) ==> final(self).child_spec(i, j)
                    == old(self).child_spec(i, j),
            forall|k: int|
                0 <= k < final(self).nodes@.len() ==> old(self).has_node(
                    (#[trigger] final(self).nodes@[k]).ppn as u64,
                ) || !old(allocator).outstanding().contains(final(self).nodes@[k].ppn),
    {
        let e = self.nodes[node_idx].entries[slot];
        if e.is_valid() {
            proof {
                assert(self.is_pointer(node_idx as int, slot as int));
            }
            let target = match self.find_node(e.ppn().0 as u64) {
                Some(i) => i,
                None => {
                    proof {
                        assert(false);
                    }
                    vstd::pervasive::unreached()
                },
            };
            return target;
        }
        // the entry is empty: allocate a cleared next-level node
        let frame = match allocator.allocate() {
            Some(f) => f,
            None => {
                proof {
                    assert(false);
                }
                vstd::pervasive::unreached()
            },
        };
        let ghost pre = *old(self);
        let ghost parent_level = pre.nodes@[node_idx as int].level@;
        proof {
            assert forall|i: int| 0 <= i < pre.nodes@.len() implies (#[trigger] pre.nodes@[i]).ppn
                != frame.ppn.0 by {
                assert(old(allocator).outstanding().contains(pre.nodes@[i].ppn));
            }
        }
        let child = PtNode {
            ppn: frame.ppn.0,
            level: Ghost((parent_level + 1) as nat),
            entries: empty_node_entries(),
        };
        self.nodes.push(child);
        let pte = PageTableEntry::new(frame.ppn, PTEFlags { bits: PTE_V });
        self.nodes[node_idx].entries[slot] = pte;
        let r = self.nodes.len() - 1;
        proof {
            let post = *self;
            let newi = pre.nodes@.len() as int;
            assert(post.nodes@.len() == pre.nodes@.len() + 1);
            assert(post.nodes@[newi].ppn == frame.ppn.0);
            assert(forall|i: int|
                0 <= i < pre.nodes@.len() && i != node_idx as int ==> post.nodes@[i]
                    == pre.nodes@[i]);
            assert(post.nodes@[node_idx as int].entries@ == pre.nodes@[node_idx as
                int].entries@.update(slot as int, pte));
            assert(1u8 & 0x01u8 != 0) by (bit_vector);
            assert(pte.spec_is_valid() && pte.spec_flags() == PTE_V && pte.spec_ppn()
                == frame.ppn.0 as u64);
            assert(!pre.nodes@[node_idx as int].entries@[slot as int].spec_is_valid());
            // distinct page numbers
            assert forall|i: int, k: int| 0 <= i < k < post.nodes@.len() implies (
            #[trigger] post.nodes@[i]).ppn != (#[trigger] post.nodes@[k]).ppn by {
                if k == newi {
                    assert(pre.nodes@[i].ppn != frame.ppn.0);
                }
            }
            // the fresh page holds a node
            assert(post.has_node(frame.ppn.0 as u64));
            let ni = post.node_index(frame.ppn.0 as u64);
            assert(0 <= ni < post.nodes@.len() && post.nodes@[ni].ppn as u64 == frame.ppn.0 as u64);
            assert(ni == newi) by {
                if ni != newi {
                    assert(pre.nodes@[ni].ppn == frame.ppn.0);
                }
            }
            // every pointer entry still points one level down to an owned node
            assert forall|i: int, j: int| #[trigger] post.is_pointer(i, j) implies
                post.nodes@[i].entries@[j].spec_flags() == PTE_V && post.has_node(
                post.nodes@[i].entries@[j].spec_ppn(),
            ) && post.nodes@[post.node_index(post.nodes@[i].entries@[j].spec_ppn())].level@
                == post.nodes@[i].level@ + 1 by {
                if i == newi {
                    assert(!post.nodes@[newi].entries@[j].spec_is_valid());
                    assert(false);
                } else if i == node_idx as int && j == slot as int {
                    assert(post.node_index(pte.spec_ppn()) == newi);
                } else {
                    assert(pre.is_pointer(i, j));
                    let p = pre.nodes@[i].entries@[j].spec_ppn();
                    let k = pre.node_index(p);
                    assert(0 <= k < pre.nodes@.len() && pre.nodes@[k].ppn as u64 == p);
                    assert(post.nodes@[k].ppn as u64 == p);
                    assert(post.has_node(p));
                    let k2 = post.node_index(p);
                    assert(0 <= k2 < post.nodes@.len() && post.nodes@[k2].ppn as u64 == p);
                    if k2 != k {
                        assert(post.nodes@[k2].ppn == post.nodes@[k].ppn);
                        assert(false);
                    }
                }
            }
            // no two pointer entries share a target
            assert forall|i1: int, j1: int, i2: int, j2: int|
                #[trigger] post.is_pointer(i1, j1) && #[trigger] post.is_pointer(i2, j2)
                    && post.nodes@[i1].entries@[j1].spec_ppn()
                    == post.nodes@[i2].entries@[j2].spec_ppn() implies i1 == i2 && j1 == j2 by {
                assert(i1 != newi && i2 != newi);
                let new_slot1 = i1 == node_idx as int && j1 == slot as int;
                let new_slot2 = i2 == node_idx as int && j2 == slot as int;
                if new_slot1 && !new_slot2 {
                    assert(pre.is_pointer(i2, j2));
                    assert(pre.has_node(pre.nodes@[i2].entries@[j2].spec_ppn()));
                    let k = pre.node_index(pre.nodes@[i2].entries@[j2].spec_ppn());
                    assert(pre.nodes@[k].ppn != frame.ppn.0);
                    assert(false);
                } else if !new_slot1 && new_slot2 {
                    assert(pre.is_pointer(i1, j1));
                    assert(pre.has_node(pre.nodes@[i1].entries@[j1].spec_ppn()));
                    let k = pre.node_index(pre.nodes@[i1].entries@[j1].spec_ppn());
                    assert(pre.nodes@[k].ppn != frame.ppn.0);
                    assert(false);
                } else if !new_slot1 && !new_slot2 {
                    assert(pre.is_pointer(i1, j1) && pre.is_pointer(i2, j2));
                }
            }
            assert(post.wf());
            // the new pointer leads to the new node
            assert(post.child_spec(node_idx as int, slot as int) == Some(newi));
            // walks elsewhere are untouched
            assert forall|i: int, j: int|
                0 <= i < pre.nodes@.len() && pre.nodes@[i].level@ < 2 && 0 <= j < 512 && !(i
                    == node_idx as int && j == slot as int) implies post.child_spec(i, j)
                == pre.child_spec(i, j) by {
                PageTable::lemma_child_spec_preserved(pre, post, i, j);
                if pre.child_spec(i, j) is None {
                    if pre.nodes@[i].entries@[j].spec_is_valid() {
                        assert(pre.is_pointer(i, j));
                        assert(false);
                    }
                    assert(post.child_spec(i, j) is None);
                }
            }
            // no translation changes
            assert forall|v: nat| #[trigger] post.mapping_of(v) == pre.mapping_of(v) by {
                let i0 = spec_vpn_index(v, 0) as int;
                let i1 = spec_vpn_index(v, 1) as int;
                let i2 = spec_vpn_index(v, 2) as int;
                assert(pre.path_node(v, 0) == Some(0int));
                assert(post.path_node(v, 0) == Some(0int));
                if node_idx as int == 0 && i0 == slot as int {
                    // the walk used to die at the root entry; it now reaches
                    // the cleared new node and dies one level down
                    assert(parent_level == 0);
                    assert(pre.child_spec(0, i0) is None);
                    assert(pre.path_node(v, 1) is None);
                    assert(pre.path_node(v, 2) is None);
                    assert(post.path_node(v, 1) == Some(newi));
                    assert(!post.nodes@[newi].entries@[i1].spec_is_valid());
                    assert(post.child_spec(newi, i1) is None);
                    assert(post.path_node(v, 2) is None);
                } else {
                    assert(post.child_spec(0, i0) == pre.child_spec(0, i0));
                    assert(post.path_node(v, 1) == pre.path_node(v, 1));
                    if pre.path_node(v, 1) is Some {
                        let m = pre.path_node(v, 1)->Some_0;
                        pre.lemma_path_level(v, 1);
                        if m == node_idx as int && i1 == slot as int {
                            assert(parent_level == 1);
                            assert(pre.child_spec(m, i1) is None);
                            assert(pre.path_node(v, 2) is None);
                            assert(post.path_node(v, 2) == Some(newi));
                            assert(!post.nodes@[newi].entries@[i2].spec_is_valid());
                            assert(post.mapping_of(v) is None);
                            assert(pre.mapping_of(v) is None);
                        } else {
                            assert(post.child_spec(m, i1) == pre.child_spec(m, i1));
                            assert(post.path_node(v, 2) == pre.path_node(v, 2));
                            if pre.path_node(v, 2) is Some {
                                let t = pre.path_node(v, 2)->Some_0;
                                pre.lemma_path_level(v, 2);
                                assert(t != node_idx as int);
                                assert(post.nodes@[t] == pre.nodes@[t]);
                            }
                        }
                    } else {
                        assert(post.path_node(v, 2) is None && pre.path_node(v, 2) is None);
                    }
                }
            }
        }
        r
    }

    /// Map `vpn` to `ppn` with `flags | V`, creating intermediate levels on
    /// demand (at most two frames). The page must not be mapped already; no
    /// other virtual page changes its translation.
    pub fn map(
        &mut self,
        allocator: &mut StackFrameAllocator,
        vpn: VirtPageNum,
        ppn: PhysPageNum,
        flags: PTEFlags,
    )
        requires
            old(self).wf(),
            old(allocator).wf(),
            old(self).frames_outstanding(*old(allocator)),
            old(allocator).free_count() >= 2,
            old(allocator).end as u64 <= PPN_LIMIT,
            (ppn.0 as u64) < PPN_LIMIT,
            vpn.0 < VPN_LIMIT,
            old(self).mapping_of(vpn.0 as nat) is None,
        ensures
            final(self).wf(),
            final(allocator).wf(),
            final(self).frames_outstanding(*final(allocator)),
            final(allocator).start == old(allocator).start,
            final(allocator).end == old(allocator).end,
            final(allocator).free_count() >= old(allocator).free_count() - 2,
            old(allocator).outstanding().subset_of(final(allocator).outstanding()),
            final(self).root_ppn == old(self).root_ppn,
            final(self).mapping_of(vpn.0 as nat) == Some((ppn.0 as u64, flags.bits | PTE_V)),
            forall|v: nat|
                v < VPN_LIMIT && v != vpn.0 as nat ==> #[trigger] final(self).mapping_of(v) == old(
                    self,
                ).mapping_of(v),
            forall|k: int|
                0 <= k < final(self).nodes@.len() ==> old(self).has_node(
                    (#[trigger] final(self).nodes@[k]).ppn as u64,
                ) || !old(allocator).outstanding().contains(final(self).nodes@[k].ppn),
    {
        let idxs = vpn.indexes();
        let ghost v0 = vpn.0 as nat;
        let n1 = self.get_or_create_child(allocator, 0, idxs[0]);
        let ghost mid1 = *self;
        proof {
            assert(mid1.nodes@[n1 as int].level@ == 1);
            assert(n1 as int != 0) by {
                assert(mid1.nodes@[0].level@ == 0);
            }
        }
        let n2 = self.get_or_create_child(allocator, n1, idxs[1]);
        let ghost mid2 = *self;
        proof {
            assert(mid2.nodes@[n2 as int].level@ == 2);
            // the walk of vpn now reaches n2
            assert(mid2.child_spec(0, spec_vpn_index(v0, 0) as int) == mid1.child_spec(
                0,
                spec_vpn_index(v0, 0) as int,
            ));
            assert(mid2.path_node(v0, 0) == Some(0int));
            assert(mid2.path_node(v0, 1) == Some(n1 as int));
            assert(mid2.path_node(v0, 2) == Some(n2 as int));
            // still unmapped, so the leaf slot is invalid
            assert(mid2.mapping_of(v0) is None);
            assert(mid2.pte_of(v0) == Some(
                mid2.nodes@[n2 as int].entries@[spec_vpn_index(v0, 2) as int],
            ));
        }
        let leaf_flags = PTEFlags { bits: flags.bits | PTE_V };
        let pte = PageTableEntry::new(ppn, leaf_flags);
        proof {
            let fb = flags.bits;
            assert((fb | 0x01u8) & 0x01u8 != 0) by (bit_vector);
        }
        self.set_leaf(n2, idxs[2], pte);
        proof {
            let post = *self;
            assert(post.pte_of(v0) == Some(pte));
            assert(post.mapping_of(v0) == Some((ppn.0 as u64, flags.bits | PTE_V)));
            assert forall|v: nat| v < VPN_LIMIT && v != v0 implies #[trigger] post.mapping_of(v)
                == old(self).mapping_of(v) by {
                if mid2.path_node(v, 2) == Some(n2 as int) && spec_vpn_index(v, 2)
                    == spec_vpn_index(v0, 2) {
                    mid2.lemma_path_injective(v, v0);
                    lemma_vpn_indexes_unique(v, v0);
                    assert(false);
                } else {
                    assert(post.pte_of(v) == mid2.pte_of(v));
                    assert(post.mapping_of(v) == mid2.mapping_of(v));
                    assert(mid2.mapping_of(v) == mid1.mapping_of(v));
                    assert(mid1.mapping_of(v) == old(self).mapping_of(v));
                }
            }
        }
    }

    /// Clear the leaf entry of `vpn`, which must be mapped. No other virtual
    /// page changes its translation, and the table keeps all its frames.
    pub fn unmap(&mut self, vpn: VirtPageNum)
        requires
            old(self).wf(),
            vpn.0 < VPN_LIMIT,
            old(self).mapping_of(vpn.0 as nat) is Some,
        ensures
            final(self).wf(),
            final(self).root_ppn == old(self).root_ppn,
            final(self).nodes@.len() == old(self).nodes@.len(),
            forall|i: int|
                0 <= i < old(self).nodes@.len() ==> (#[trigger] final(self).nodes@[i]).ppn == old(
                    self,
                ).nodes@[i].ppn,
            final(self).mapping_of(vpn.0 as nat) is None,
            forall|v: nat|
                v < VPN_LIMIT && v != vpn.0 as nat ==> #[trigger] final(self).mapping_of(v) == old(
                    self,
                ).mapping_of(v),
    {
        let ghost v0 = vpn.0 as nat;
        let loc = match self.find_pte_loc(vpn) {
            Some(l) => l,
            None => {
                proof {
                    assert(false);
                }
                vstd::pervasive::unreached()
            },
        };
        let (n2, s) = loc;
        let ghost pre = *self;
        self.set_leaf(n2, s, PageTableEntry::empty());
        proof {
            let post = *self;
            assert(post.mapping_of(v0) is None);
            assert forall|v: nat| v < VPN_LIMIT && v != v0 implies #[trigger] post.mapping_of(v)
                == pre.mapping_of(v) by {
                if pre.path_node(v, 2) == Some(n2 as int) && spec_vpn_index(v, 2) == s as nat {
                    pre.lemma_path_injective(v, v0);
                    lemma_vpn_indexes_unique(v, v0);
                    assert(false);
                } else {
                    assert(post.pte_of(v) == pre.pte_of(v));
                }
            }
        }
    }

    /// The SV39 `satp` value of this table: mode 8 and the root page number.
    pub fn token(&self) -> (r: u64)
        ensures
            r == (8u64 << 60u64) | (self.root_ppn.0 as u64),
    {
        (8u64 << 60u64) | (self.root_ppn.0 as u64)
    }

    /// A rootless view of the table a `satp` value names. It owns no frames,
    /// so it can only carry the root page number around, never translate or
    /// mutate.
    pub fn from_token(satp: u64) -> (r: PageTable)
        requires
            satp & 0xFFF_FFFF_FFFFu64 <= usize::MAX as u64,
        ensures
            r.root_ppn.0 as u64 == satp & 0xFFF_FFFF_FFFFu64,
            r.nodes@.len() == 0,
    {
        PageTable { root_ppn: PhysPageNum((satp & 0xFFF_FFFF_FFFF) as usize), nodes: Vec::new() }
    }

    /// Translate a virtual address through the leaf entry of its page: the
    /// page's physical base plus the in-page offset. Nothing is returned when
    /// the leaf entry is missing, not valid, or beyond the machine's
    /// addresses.
    pub fn translate_va(&self, va: VirtAddr) -> (r: Option<PhysAddr>)
        requires
            self.wf(),
        ensures
            match self.mapping_of((va.0 / PAGE_SIZE) as nat) {
                Some(m) => if m.0 * PAGE_SIZE + va.0 % PAGE_SIZE <= usize::MAX {
                    r == Some(PhysAddr((m.0 * PAGE_SIZE + va.0 % PAGE_SIZE) as usize))
                } else {
                    r is None
                },
                None => r is None,
            },
    {
        let vpn = va.floor();
        match self.translate(vpn) {
            Some(pte) => {
                if pte.is_valid() {
                    let p: u64 = pte.ppn_bits();
                    proof {
                        let b = pte.bits;
                        assert((b >> 10u64) & 0xFFF_FFFF_FFFFu64 <= 0xFFF_FFFF_FFFFu64)
                            by (bit_vector);
                    }
                    let pa: u64 = p * (PAGE_SIZE as u64) + (va.page_offset() as u64);
                    if pa <= usize::MAX as u64 {
                        Some(PhysAddr(pa as usize))
                    } else {
                        None
                    }
                } else {
                    None
                }
            },
            None => None,
        }
    }
}

impl PageTableEntry {
    /// The physical page number field as a 64-bit value.
    pub fn ppn_bits(&self) -> (r: u64)
        ensures
            r == self.spec_ppn(),
    {
        (self.bits >> 10u64) & 0xFFF_FFFF_FFFFu64
    }
}

/// One piece of a user buffer: the byte range `[start, end)` inside the
/// physical page `ppn`.
#[derive(Clone, Copy, PartialEq, Eq, Structural, Debug)]
pub struct BufferSegment {
    pub ppn: usize,
    pub start: usize,
    pub end: usize,
}

/// How `translated_byte_buffer` describes the `j`-th covered page of the
/// user range `[ptr, ptr + len)`: the page is mapped, the segment names its
/// frame, and the byte range is the intersection of the page with the range.
pub open spec fn buffer_segment_ok(
    table: PageTable,
    ptr: usize,
    len: usize,
    j: int,
    seg: BufferSegment,
) -> bool {
    let m = table.mapping_of(((ptr / PAGE_SIZE) + j) as nat);
    let pages = (ptr + len - 1) / (PAGE_SIZE as int) - (ptr as int) / (PAGE_SIZE as int) + 1;
    &&& m is Some
    &&& seg.ppn as u64 == m->Some_0.0
    &&& seg.start == (if j == 0 {
        (ptr % PAGE_SIZE) as int
    } else {
        0int
    })
    &&& seg.end == (if j == pages - 1 {
        (ptr + len - 1) % (PAGE_SIZE as int) + 1
    } else {
        PAGE_SIZE as int
    })
    &&& 0 <= seg.start < seg.end <= PAGE_SIZE
}

/// Cut the user range `[ptr, ptr + len)` along page boundaries and translate
/// each page, yielding one in-page byte range per covered page. Nothing is
/// returned when some covered page is unmapped (or its frame lies beyond the
/// machine's addresses): the caller treats that as a fault, where the
/// original kernel would halt.
pub fn translated_byte_buffer(table: &PageTable, ptr: usize, len: usize) -> (r: Option<
    Vec<BufferSegment>,
>)
    requires
        table.wf(),
        ptr + len <= usize::MAX,
    ensures
        match r {
            Some(v) => {
                &&& (len == 0 ==> v@.len() == 0)
                &&& (len > 0 ==> v@.len() == (ptr + len - 1) / (PAGE_SIZE as int) - (ptr as int)
                    / (PAGE_SIZE as int) + 1)
                &&& forall|k: int|
                    0 <= k < v@.len() ==> buffer_segment_ok(*table, ptr, len, k, #[trigger] v@[k])
            },
            None => exists|vp: nat|
                {
                    &&& len > 0
                    &&& ptr / PAGE_SIZE <= vp <= (ptr + len - 1) / (PAGE_SIZE as int)
                    &&& match #[trigger] table.mapping_of(vp) {
                        Some(m) => m.0 > usize::MAX as u64,
                        None => true,
                    }
                },
        },
{
    let mut segs: Vec<BufferSegment> = Vec::new();
    if len == 0 {
        return Some(segs);
    }
    let first: usize = ptr / PAGE_SIZE;
    let last: usize = (ptr + len - 1) / PAGE_SIZE;
    let count: usize = last - first + 1;
    let mut k: usize = 0;
    while k < count
        invariant
            table.wf(),
            len > 0,
            ptr + len <= usize::MAX,
            first == ptr / PAGE_SIZE,
            last == (ptr + len - 1) / (PAGE_SIZE as int),
            first <= last,
            count == last - first + 1,
            k <= count,
            segs@.len() == k,
            forall|j: int| 0 <= j < k ==> buffer_segment_ok(*table, ptr, len, j, #[trigger] segs@[j]),
        decreases count - k,
    {
        let vpn = VirtPageNum(first + k);
        match table.translate(vpn) {
            Some(pte) => {
                if pte.is_valid() {
                    let p: u64 = pte.ppn_bits();
                    if p <= usize::MAX as u64 {
                        let start: usize = if k == 0 {
                            ptr % PAGE_SIZE
                        } else {
                            0
                        };
                        let end: usize = if k == count - 1 {
                            (ptr + len - 1) % PAGE_SIZE + 1
                        } else {
                            PAGE_SIZE
                        };
                        proof {
                            if k == 0 && k == count - 1 {
                                let a = ptr as int;
                                let b = (ptr + len - 1) as int;
                                assert(a % 4096 < b % 4096 + 1) by (nonlinear_arith)
                                    requires
                                        a <= b,
                                        0 <= a,
                                        a / 4096 == b / 4096,
                                ;
                            }
                        }
                        let seg = BufferSegment { ppn: p as usize, start, end };
                        segs.push(seg);
                        proof {
                            assert(table.pte_of((first + k) as nat) == Some(pte));
                            assert(table.mapping_of((first + k) as nat) == Some(
                                (pte.spec_ppn(), pte.spec_flags()),
                            ));
                            assert(buffer_segment_ok(*table, ptr, len, k as int, seg));
                            assert(segs@[k as int] == seg);
                        }
                    } else {
                        proof {
                            assert(first + k <= last);
                        }
                        return None;
                    }
                } else {
                    proof {
                        assert(first + k <= last);
                        assert(table.mapping_of((first + k) as nat) is None);
                    }
                    return None;
                }
            },
            None => {
                proof {
                    assert(first + k <= last);
                    assert(table.mapping_of((first + k) as nat) is None);
                }
                return None;
            },
        }
        k = k + 1;
    }
    Some(segs)
}

} // verus!
