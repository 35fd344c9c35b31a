//! Virtual and physical addresses and page numbers.
//!
//! A page number is a page-aligned address divided by the page size; the
//! conversions below are the only arithmetic the rest of the crate does on
//! raw addresses.
use vstd::prelude::*;

use crate::consts::{MAX_VPN, PAGE_SIZE};

verus! {

/// A virtual byte address.
#[derive(Clone, Copy, Debug, PartialEq, Eq, Structural)]
pub struct VirtAddr(pub usize);

/// A physical byte address.
#[derive(Clone, Copy, Debug, PartialEq, Eq, Structural)]
pub struct PhysAddr(pub usize);

/// A virtual page number: a virtual address divided by `PAGE_SIZE`.
#[derive(Clone, Copy, Debug, PartialEq, Eq, Structural)]
pub struct VirtPageNum(pub usize);

/// A physical page number: a physical address divided by `PAGE_SIZE`.
#[derive(Clone, Copy, Debug, PartialEq, Eq, Structural)]
pub struct PhysPageNum(pub usize);

impl VirtAddr {
    /// The page that contains this address.
    pub fn floor(&self) -> (r: VirtPageNum)
        ensures
            r.0 == self.0 / PAGE_SIZE,
    {
        VirtPageNum(self.0 / PAGE_SIZE)
    }

    /// The first page boundary at or above this address.
    pub fn ceil(&self) -> (r: VirtPageNum)
        ensures
            r.0 == spec_page_ceil(self.0 as int),
    {
        if self.0 % PAGE_SIZE == 0 {
            VirtPageNum(self.0 / PAGE_SIZE)
        } else {
            VirtPageNum(self.0 / PAGE_SIZE + 1)
        }
    }

    /// The offset of this address within its page.
    pub fn page_offset(&self) -> (r: usize)
        ensures
            r == self.0 % PAGE_SIZE,
    {
        self.0 % PAGE_SIZE
    }
}

/// Page number of the first page boundary at or above address `a`.
pub open spec fn spec_page_ceil(a: int) -> int {
    if a % (PAGE_SIZE as int) == 0 {
        a / (PAGE_SIZE as int)
    } else {
        a / (PAGE_SIZE as int) + 1
    }
}

impl PhysAddr {
    /// The page that contains this address.
    pub fn floor(&self) -> (r: PhysPageNum)
        ensures
            r.0 == self.0 / PAGE_SIZE,
    {
        PhysPageNum(self.0 / PAGE_SIZE)
    }

    /// The first page boundary at or above this address.
    pub fn ceil(&self) -> (r: PhysPageNum)
        ensures
            r.0 == spec_page_ceil(self.0 as int),
    {
        if self.0 % PAGE_SIZE == 0 {
            PhysPageNum(self.0 / PAGE_SIZE)
        } else {
            PhysPageNum(self.0 / PAGE_SIZE + 1)
        }
    }
}

impl VirtPageNum {
    /// The first byte address of this page.
    pub fn addr(&self) -> (r: VirtAddr)
        requires
            self.0 <= MAX_VPN,
        ensures
            r.0 == self.0 * PAGE_SIZE,
    {
        VirtAddr(self.0 * PAGE_SIZE)
    }
}

/// A contiguous range of virtual pages `[start, end)`.
#[derive(Clone, Copy, Debug, PartialEq, Eq, Structural)]
pub struct VPNRange {
    pub start: VirtPageNum,
    pub end: VirtPageNum,
}

impl VPNRange {
    /// A range over the pages `[start, end)`.
    pub fn new(start: VirtPageNum, end: VirtPageNum) -> (r: VPNRange)
        ensures
            r.start == start,
            r.end == end,
    {
        VPNRange { start, end }
    }

    /// First page of the range.
    pub fn get_start(&self) -> (r: VirtPageNum)
        ensures
            r == self.start,
    {
        self.start
    }

    /// First page past the range.
    pub fn get_end(&self) -> (r: VirtPageNum)
        ensures
            r == self.end,
    {
        self.end
    }

    /// Whether `vpn` lies inside the range.
    pub open spec fn spec_contains(self, vpn: VirtPageNum) -> bool {
        self.start.0 <= vpn.0 < self.end.0
    }

    /// Whether `vpn` lies inside the range.
    pub fn contains(&self, vpn: VirtPageNum) -> (r: bool)
        ensures
            r == self.spec_contains(vpn),
    {
        self.start.0 <= vpn.0 && vpn.0 < self.end.0
    }

    /// Number of pages in the range.
    pub open spec fn spec_len(self) -> int {
        if self.start.0 <= self.end.0 {
            self.end.0 - self.start.0
        } else {
            0
        }
    }

    /// Whether this range shares no page with `other`: the intervals do
    /// not meet, or one of them is empty.
    pub fn disjoint_from(&self, other: &VPNRange) -> (r: bool)
        ensures
            r == ranges_disjoint(*self, *other),
    {
        let r = self.end.0 <= other.start.0 || other.end.0 <= self.start.0 || self.start.0
            >= self.end.0 || other.start.0 >= other.end.0;
        proof {
            if !r {
                let w = VirtPageNum(
                    if self.start.0 >= other.start.0 {
                        self.start.0
                    } else {
                        other.start.0
                    },
                );
                assert(self.spec_contains(w) && other.spec_contains(w));
            }
        }
        r
    }

    /// Number of pages in the range.
    pub fn len(&self) -> (r: usize)
        ensures
            r == self.spec_len(),
    {
        if self.start.0 <= self.end.0 {
            self.end.0 - self.start.0
        } else {
            0
        }
    }
}

/// The integers in `[lo, hi)`, as a set.
pub open spec fn spec_int_range(lo: int, hi: int) -> Set<int> {
    Set::new(|i: int| lo <= i < hi)
}

/// That set is finite, of size `hi - lo`.
pub proof fn lemma_spec_int_range(lo: int, hi: int)
    ensures
        lo <= hi ==> spec_int_range(lo, hi).finite() && spec_int_range(lo, hi).len() == hi - lo,
    decreases hi - lo,
{
    if lo < hi {
        lemma_spec_int_range(lo, hi - 1);
        assert(spec_int_range(lo, hi - 1).insert(hi - 1) =~= spec_int_range(lo, hi));
    } else if lo == hi {
        assert(spec_int_range(lo, hi) =~= Set::empty());
    }
}

/// Whether two page ranges share no page.
pub open spec fn ranges_disjoint(a: VPNRange, b: VPNRange) -> bool {
    forall|vpn: VirtPageNum| !(a.spec_contains(vpn) && b.spec_contains(vpn))
}

} // verus!
