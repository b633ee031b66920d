//! Physical and virtual addresses and page numbers.
//!
//! SV39 virtual addresses translate through three 9-bit index levels over
//! 4 KiB pages; physical page numbers carry 44 significant bits and virtual
//! page numbers 27.

use vstd::prelude::*;

use crate::config::PAGE_SIZE;

verus! {

#[derive(Clone, Copy, PartialEq, Eq, Structural, Debug)]
pub struct PhysAddr(pub usize);

#[derive(Clone, Copy, PartialEq, Eq, Structural, Debug)]
pub struct VirtAddr(pub usize);

#[derive(Clone, Copy, PartialEq, Eq, Structural, Debug)]
pub struct PhysPageNum(pub usize);

#[derive(Clone, Copy, PartialEq, Eq, Structural, Debug)]
pub struct VirtPageNum(pub usize);

/// Largest virtual page number plus one: VPNs have 27 significant bits.
pub const VPN_LIMIT: usize = 0x800_0000;
/// Largest physical page number plus one: PPNs have 44 significant bits.
pub const PPN_LIMIT: u64 = 0x1000_0000_0000;

/// The page-table index of `vpn` at `level` 0 (root), 1 or 2 (leaf level).
pub open spec fn spec_vpn_index(vpn: nat, level: int) -> nat {
    if level == 0 {
        (vpn / (512 * 512)) % 512
    } else if level == 1 {
        (vpn / 512) % 512
    } else {
        vpn % 512
    }
}

/// A virtual page number is determined by its three SV39 indexes.
pub proof fn lemma_vpn_indexes_unique(a: nat, b: nat)
    requires
        a < VPN_LIMIT,
        b < VPN_LIMIT,
        spec_vpn_index(a, 0) == spec_vpn_index(b, 0),
        spec_vpn_index(a, 1) == spec_vpn_index(b, 1),
        spec_vpn_index(a, 2) == spec_vpn_index(b, 2),
    ensures
        a == b,
{
    assert(a == spec_vpn_index(a, 0) * (512 * 512) + spec_vpn_index(a, 1) * 512 + spec_vpn_index(
        a,
        2,
    )) by (nonlinear_arith)
        requires
            a < 0x800_0000,
    ;
    assert(b == spec_vpn_index(b, 0) * (512 * 512) + spec_vpn_index(b, 1) * 512 + spec_vpn_index(
        b,
        2,
    )) by (nonlinear_arith)
        requires
            b < 0x800_0000,
    ;
}

impl VirtAddr {
    /// The virtual page containing this address.
    pub fn floor(&self) -> (r: VirtPageNum)
        ensures
            r.0 == self.0 / PAGE_SIZE,
    {
        VirtPageNum(self.0 / PAGE_SIZE)
    }

    /// The first virtual page boundary at or above this address.
    pub fn ceil(&self) -> (r: VirtPageNum)
        ensures
            r.0 == (self.0 + PAGE_SIZE - 1) / (PAGE_SIZE as int),
    {
        let down: usize = self.0 / PAGE_SIZE;
        let r = if self.0 % PAGE_SIZE == 0 {
            down
        } else {
            down + 1
        };
        proof {
            assert(r == (self.0 + PAGE_SIZE - 1) / (PAGE_SIZE as int)) by (nonlinear_arith)
                requires
                    r == (self.0 as int) / (PAGE_SIZE as int) + (if (self.0 as int) % (
                    PAGE_SIZE as int) == 0 {
                        0int
                    } else {
                        1int
                    }),
                    PAGE_SIZE == 4096,
            ;
        }
        VirtPageNum(r)
    }

    /// The offset of this address inside its page.
    pub fn page_offset(&self) -> (r: usize)
        ensures
            r == self.0 % PAGE_SIZE,
            r < PAGE_SIZE,
    {
        self.0 % PAGE_SIZE
    }

    pub fn aligned(&self) -> (r: bool)
        ensures
            r == (self.0 % PAGE_SIZE == 0),
    {
        self.0 % PAGE_SIZE == 0
    }
}

impl VirtPageNum {
    /// The lowest address of this page.
    pub fn base_addr(&self) -> (r: VirtAddr)
        requires
            self.0 * PAGE_SIZE <= usize::MAX,
        ensures
            r.0 == self.0 * PAGE_SIZE,
    {
        VirtAddr(self.0 * PAGE_SIZE)
    }

    /// The three SV39 page-table indexes of this page, root level first.
    pub fn indexes(&self) -> (r: [usize; 3])
        ensures
            r[0] == spec_vpn_index(self.0 as nat, 0),
            r[1] == spec_vpn_index(self.0 as nat, 1),
            r[2] == spec_vpn_index(self.0 as nat, 2),
            r[0] < 512,
            r[1] < 512,
            r[2] < 512,
    {
        let idx0: usize = (self.0 / (512 * 512)) % 512;
        let idx1: usize = (self.0 / 512) % 512;
        let idx2: usize = self.0 % 512;
        [idx0, idx1, idx2]
    }

    /// Advance to the next virtual page.
    pub fn step(&mut self)
        requires
            old(self).0 < usize::MAX,
        ensures
            final(self).0 == old(self).0 + 1,
    {
        self.0 = self.0 + 1;
    }
}

impl PhysAddr {
    pub fn floor(&self) -> (r: PhysPageNum)
        ensures
            r.0 == self.0 / PAGE_SIZE,
    {
        PhysPageNum(self.0 / PAGE_SIZE)
    }

    pub fn page_offset(&self) -> (r: usize)
        ensures
            r == self.0 % PAGE_SIZE,
            r < PAGE_SIZE,
    {
        self.0 % PAGE_SIZE
    }
}

impl PhysPageNum {
    pub fn base_addr(&self) -> (r: PhysAddr)
        requires
            self.0 * PAGE_SIZE <= usize::MAX,
        ensures
            r.0 == self.0 * PAGE_SIZE,
    {
        PhysAddr(self.0 * PAGE_SIZE)
    }
}

} // verus!
