//! Virtual and physical addresses, page numbers, and contiguous ranges of
//! virtual page numbers.  Addresses are page-granular: `floor` and `ceil`
//! convert an address to the page containing it or to the next page boundary.

use vstd::prelude::*;
use crate::config::{PAGE_SIZE, VA_SIZE};

verus! {

/// A virtual address inside the 39-bit address space.
#[derive(Clone, Copy, PartialEq, Eq, Structural, Debug)]
pub struct VirtAddr(pub u64);

/// A virtual page number: a virtual address divided by the page size.
#[derive(Clone, Copy, PartialEq, Eq, Structural, Debug)]
pub struct VirtPageNum(pub u64);

/// A physical address.
#[derive(Clone, Copy, PartialEq, Eq, Structural, Debug)]
pub struct PhysAddr(pub u64);

/// A physical page number: the frame allocator's unit of currency.
#[derive(Clone, Copy, PartialEq, Eq, Structural, Debug)]
pub struct PhysPageNum(pub u64);

impl VirtAddr {
    /// The address lies inside the 39-bit space.
    pub open spec fn wf(self) -> bool {
        self.0 < VA_SIZE
    }

    /// The page containing this address.
    pub fn floor(self) -> (r: VirtPageNum)
        ensures
            r.0 == self.0 / PAGE_SIZE,
    {
        VirtPageNum(self.0 / PAGE_SIZE)
    }

    /// The first page boundary at or above this address.
    pub fn ceil(self) -> (r: VirtPageNum)
        requires
            self.wf(),
        ensures
            r.0 == (self.0 + PAGE_SIZE - 1) / (PAGE_SIZE as int),
            r.0 * PAGE_SIZE >= self.0,
    {
        VirtPageNum((self.0 + PAGE_SIZE - 1) / PAGE_SIZE)
    }

    /// Offset of this address inside its page.
    pub fn page_offset(self) -> (r: u64)
        ensures
            r == self.0 % PAGE_SIZE,
    {
        self.0 % PAGE_SIZE
    }

    /// Whether the address sits exactly on a page boundary.
    pub fn aligned(self) -> (r: bool)
        ensures
            r == (self.0 % PAGE_SIZE == 0),
    {
        self.0 % PAGE_SIZE == 0
    }
}

impl VirtPageNum {
    /// First virtual address of this page.
    pub fn addr(self) -> (r: VirtAddr)
        requires
            self.0 <= u64::MAX / PAGE_SIZE,
        ensures
            r.0 == self.0 * PAGE_SIZE,
    {
        VirtAddr(self.0 * PAGE_SIZE)
    }

    /// Advance to the next page.
    pub fn step(&mut self)
        requires
            old(self).0 < u64::MAX,
        ensures
            final(self).0 == old(self).0 + 1,
    {
        self.0 = self.0 + 1;
    }
}

impl PhysAddr {
    /// The frame containing this address.
    pub fn floor(self) -> (r: PhysPageNum)
        ensures
            r.0 == self.0 / PAGE_SIZE,
    {
        PhysPageNum(self.0 / PAGE_SIZE)
    }
}

/// A half-open range of virtual page numbers `[start, end)`.
#[derive(Clone, Copy, PartialEq, Eq, Structural, Debug)]
pub struct VPNRange {
    pub start: VirtPageNum,
    pub end: VirtPageNum,
}

impl VPNRange {
    /// The range is properly ordered.
    pub open spec fn wf(self) -> bool {
        self.start.0 <= self.end.0
    }

    /// Whether page number `v` lies in the range.
    pub open spec fn has(self, v: u64) -> bool {
        self.start.0 <= v < self.end.0
    }

    /// Number of pages in the range.
    pub open spec fn len_spec(self) -> int {
        self.end.0 - self.start.0
    }

    /// Build a range from its two endpoints.
    pub fn new(start: VirtPageNum, end: VirtPageNum) -> (r: VPNRange)
        requires
            start.0 <= end.0,
        ensures
            r.start == start,
            r.end == end,
            r.wf(),
    {
        VPNRange { start, end }
    }

    /// Build a range of `len` pages starting at `start`.
    pub fn new_by_len(start: VirtPageNum, len: u64) -> (r: VPNRange)
        requires
            start.0 + len <= u64::MAX,
        ensures
            r.start == start,
            r.end.0 == start.0 + len,
            r.wf(),
    {
        VPNRange { start, end: VirtPageNum(start.0 + len) }
    }

    /// First page of the range.
    pub fn get_start(&self) -> (r: VirtPageNum)
        ensures
            r == self.start,
    {
        self.start
    }

    /// One past the last page of the range.
    pub fn get_end(&self) -> (r: VirtPageNum)
        ensures
            r == self.end,
    {
        self.end
    }

    /// Whether the range holds no page.
    pub fn is_empty(&self) -> (r: bool)
        ensures
            r == (self.start.0 >= self.end.0),
            self.wf() ==> r == (self.len_spec() == 0),
    {
        self.start.0 >= self.end.0
    }

    /// Number of pages in the range.
    pub fn len(&self) -> (r: u64)
        requires
            self.wf(),
        ensures
            r == self.len_spec(),
    {
        self.end.0 - self.start.0
    }

    /// Whether page `vpn` lies in the range.
    pub fn is_contains(&self, vpn: VirtPageNum) -> (r: bool)
        ensures
            r == self.has(vpn.0),
    {
        self.start.0 <= vpn.0 && vpn.0 < self.end.0
    }

    /// Whether the two ranges share a page.
    pub fn intersects(&self, other: &VPNRange) -> (r: bool)
        requires
            self.wf(),
            other.wf(),
        ensures
            r == exists|v: u64| self.has(v) && other.has(v),
    {
        let lo = if self.start.0 >= other.start.0 { self.start.0 } else { other.start.0 };
        let hi = if self.end.0 <= other.end.0 { self.end.0 } else { other.end.0 };
        if lo < hi {
            proof {
                assert(self.has(lo) && other.has(lo));
            }
            true
        } else {
            false
        }
    }

    /// The pages common to both ranges, as a range (empty if none).
    pub fn intersection(&self, other: &VPNRange) -> (r: VPNRange)
        requires
            self.wf(),
            other.wf(),
        ensures
            r.wf(),
            forall|v: u64| r.has(v) == (self.has(v) && other.has(v)),
            r.start.0 == if self.start.0 >= other.start.0 { self.start.0 } else { other.start.0 },
            r.len_spec() > 0 ==> r.end.0 == if self.end.0 <= other.end.0 { self.end.0 } else { other.end.0 },
    {
        let lo = if self.start.0 >= other.start.0 { self.start.0 } else { other.start.0 };
        let hi = if self.end.0 <= other.end.0 { self.end.0 } else { other.end.0 };
        if lo < hi {
            VPNRange { start: VirtPageNum(lo), end: VirtPageNum(hi) }
        } else {
            VPNRange { start: VirtPageNum(lo), end: VirtPageNum(lo) }
        }
    }

    /// Partition this range around `other`: the pages before `other`, the
    /// pages after it, and the pages shared with it.
    pub fn exclude(&self, other: &VPNRange) -> (r: (VPNRange, VPNRange, VPNRange))
        requires
            self.wf(),
            other.wf(),
        ensures
            r.0.wf() && r.1.wf() && r.2.wf(),
            forall|v: u64| r.0.has(v) == (self.has(v) && v < other.start.0),
            forall|v: u64| r.1.has(v) == (self.has(v) && v >= other.end.0),
            forall|v: u64| r.2.has(v) == (self.has(v) && other.has(v)),
            r.0.start == self.start,
            r.1.end == self.end,
            r.2.len_spec() > 0 ==> r.0.end == r.2.start && r.2.end == r.1.start,
    {
        let cut_lo = if other.start.0 <= self.start.0 {
            self.start.0
        } else if other.start.0 >= self.end.0 {
            self.end.0
        } else {
            other.start.0
        };
        let cut_hi = if other.end.0 <= self.start.0 {
            self.start.0
        } else if other.end.0 >= self.end.0 {
            self.end.0
        } else {
            other.end.0
        };
        let left = VPNRange { start: self.start, end: VirtPageNum(cut_lo) };
        let right = VPNRange { start: VirtPageNum(cut_hi), end: self.end };
        let inter = self.intersection(other);
        (left, right, inter)
    }
}

} // verus!
