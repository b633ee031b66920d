//! Stack-based physical frame allocator.
//!
//! Tracks free pages of a contiguous physical region with a frontier and a
//! list of recycled pages. The key guarantee is frame uniqueness: at any
//! point, the set of outstanding frames — handed out and not yet returned —
//! never receives a page twice, so at most one tracker per physical page
//! exists at a time.

use vstd::prelude::*;

use crate::address::PhysPageNum;

verus! {

/// Exclusive ownership of one physical page, identified by its page number.
#[derive(Clone, Copy, PartialEq, Eq, Structural, Debug)]
pub struct FrameTracker {
    pub ppn: PhysPageNum,
}

/// Allocates frames from `[start, end)`: the last recycled page if any,
/// otherwise the frontier page.
pub struct StackFrameAllocator {
    pub start: usize,
    pub current: usize,
    pub end: usize,
    pub recycled: Vec<usize>,
}

impl StackFrameAllocator {
    /// Structure kept by every operation: the frontier stays inside the
    /// region and recycled pages are distinct pages below the frontier.
    pub open spec fn wf(self) -> bool {
        &&& self.start <= self.current <= self.end
        &&& forall|i: int|
            0 <= i < self.recycled@.len() ==> self.start <= #[trigger] self.recycled@[i]
                < self.current
        &&& forall|i: int, j: int|
            0 <= i < j < self.recycled@.len() ==> self.recycled@[i] != self.recycled@[j]
    }

    /// The pages handed out and not yet returned.
    pub open spec fn outstanding(self) -> Set<usize> {
        Set::new(
            |p: usize| self.start <= p < self.current && !self.recycled@.contains(p),
        )
    }

    /// How many more allocations can succeed.
    pub open spec fn free_count(self) -> int {
        self.end - self.current + self.recycled@.len()
    }

    /// An allocator over the empty region; `init` gives it its range.
    pub fn new() -> (r: StackFrameAllocator)
        ensures
            r.wf(),
            r.outstanding() === Set::empty(),
            r.start == 0 && r.current == 0 && r.end == 0,
            r.recycled@.len() == 0,
    {
        let r = StackFrameAllocator { start: 0, current: 0, end: 0, recycled: Vec::new() };
        proof {
            assert(r.outstanding() =~= Set::empty());
        }
        r
    }

    /// Give the allocator the physical range `[l, r)`.
    pub fn init(&mut self, l: PhysPageNum, r: PhysPageNum)
        requires
            old(self).recycled@.len() == 0,
            l.0 <= r.0,
        ensures
            final(self).wf(),
            final(self).outstanding() === Set::empty(),
            final(self).start == l.0,
            final(self).current == l.0,
            final(self).end == r.0,
            final(self).recycled == old(self).recycled,
    {
        self.start = l.0;
        self.current = l.0;
        self.end = r.0;
        proof {
            assert(final(self).outstanding() =~= Set::empty());
        }
    }

    /// Hand out one page. The page returned was not outstanding before the
    /// call and is outstanding after it; no other page changes state.
    /// Allocation fails exactly when the frontier is exhausted and nothing
    /// was recycled.
    pub fn allocate(&mut self) -> (r: Option<FrameTracker>)
        requires
            old(self).wf(),
        ensures
            final(self).wf(),
            final(self).start == old(self).start,
            final(self).end == old(self).end,
            match r {
                Some(f) => {
                    &&& !old(self).outstanding().contains(f.ppn.0)
                    &&& final(self).outstanding() === old(self).outstanding().insert(f.ppn.0)
                    &&& old(self).start <= f.ppn.0 < final(self).current
                    &&& final(self).current <= final(self).end
                    &&& final(self).free_count() == old(self).free_count() - 1
                    // recycled pages are preferred; the frontier moves only
                    // when none is free
                    &&& (old(self).recycled@.len() > 0 ==> final(self).current == old(self).current && f.ppn.0 == old(self).recycled@.last() && final(self).recycled@
                        == old(self).recycled@.drop_last())
                    &&& (old(self).recycled@.len() == 0 ==> f.ppn.0 == old(self).current && final(self).current == old(self).current + 1 && final(self).recycled@ == old(self).recycled@)
                },
                None => {
                    &&& old(self).current == old(self).end
                    &&& old(self).recycled@.len() == 0
                    &&& final(self).current == old(self).current
                    &&& final(self).recycled@ == old(self).recycled@
                    &&& final(self).outstanding() === old(self).outstanding()
                },
            },
    {
        let popped = self.recycled.pop();
        match popped {
            Some(ppn) => {
                proof {
                    assert(old(self).recycled@.contains(ppn)) by {
                        assert(old(self).recycled@.last() == ppn);
                    }
                    assert(final(self).outstanding() =~= old(self).outstanding().insert(ppn)) by {
                        assert forall|p: usize| old(self).outstanding().insert(ppn).contains(p)
                            implies final(self).outstanding().contains(p) by {
                            if p != ppn {
                                assert(old(self).recycled@.drop_last().contains(p) ==> old(self).recycled@.contains(p));
                            } else {
                                assert(forall|i: int|
                                    0 <= i < old(self).recycled@.len() - 1 ==> old(self).recycled@.drop_last()[i] == #[trigger] old(self).recycled@[i]);
                                assert(!self.recycled@.contains(ppn));
                            }
                        }
                        assert forall|p: usize| final(self).outstanding().contains(p) implies old(self).outstanding().insert(ppn).contains(p) by {
                            if p != ppn {
                                if old(self).recycled@.contains(p) {
                                    let i = choose|i: int|
                                        0 <= i < old(self).recycled@.len() && old(self).recycled@[i] == p;
                                    assert(i < old(self).recycled@.len() - 1);
                                    assert(self.recycled@[i] == p);
                                }
                            }
                        }
                    }
                }
                Some(FrameTracker { ppn: PhysPageNum(ppn) })
            },
            None => {
                if self.current == self.end {
                    None
                } else {
                    let ppn = self.current;
                    self.current = self.current + 1;
                    proof {
                        assert(final(self).outstanding() =~= old(self).outstanding().insert(ppn));
                    }
                    Some(FrameTracker { ppn: PhysPageNum(ppn) })
                }
            },
        }
    }

    /// Return one outstanding page to the free list. Returning a page that is
    /// not outstanding — freed twice, or never handed out — is excluded by
    /// contract: the kernel halts on it rather than corrupting the pool.
    pub fn dealloc(&mut self, ppn: PhysPageNum)
        requires
            old(self).wf(),
            old(self).outstanding().contains(ppn.0),
        ensures
            final(self).wf(),
            final(self).start == old(self).start,
            final(self).current == old(self).current,
            final(self).end == old(self).end,
            final(self).outstanding() === old(self).outstanding().remove(ppn.0),
            final(self).free_count() == old(self).free_count() + 1,
    {
        self.recycled.push(ppn.0);
        proof {
            let s_old = old(self).recycled@;
            let s_new = self.recycled@;
            assert forall|p: usize| s_new.contains(p) implies (s_old.contains(p) || p
                == ppn.0) by {
                let i = choose|i: int| 0 <= i < s_new.len() && s_new[i] == p;
                if i < s_old.len() {
                    assert(s_old[i] == p);
                }
            }
            assert forall|p: usize| s_old.contains(p) implies s_new.contains(p) by {
                let i = choose|i: int| 0 <= i < s_old.len() && s_old[i] == p;
                assert(s_new[i] == p);
            }
            assert(s_new.contains(ppn.0)) by {
                assert(s_new[s_old.len() as int] == ppn.0);
            }
            assert(final(self).outstanding() =~= old(self).outstanding().remove(ppn.0));
        }
    }
}

/// Frame uniqueness along a trace: an allocation performed after any earlier
/// allocation whose frame is still outstanding yields a different frame, so
/// the outstanding pool never holds the same page twice.
pub proof fn lemma_frame_uniqueness(
    s0: StackFrameAllocator,
    s1: StackFrameAllocator,
    s2: StackFrameAllocator,
    p1: usize,
    p2: usize,
)
    requires
        // first allocation: p1 fresh in s0, outstanding afterwards
        !s0.outstanding().contains(p1),
        s1.outstanding() === s0.outstanding().insert(p1),
        // any number of steps that keep p1 outstanding lead to s2
        s2.outstanding().contains(p1),
        // second allocation returns p2 fresh in s2
        !s2.outstanding().contains(p2),
    ensures
        p2 != p1,
{
}

} // verus!
