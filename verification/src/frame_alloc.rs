//! The physical frame allocator: a watermark plus free-list allocator over a
//! fixed pool of physical page numbers `[base, end)`.
//!
//! A frame is *free* when it sits on the recycled list or has never been
//! handed out; otherwise it is *allocated* and owned by exactly one live
//! owner.  `frame_alloc` hands out a free frame and `frame_dealloc` returns
//! one; a second `frame_dealloc` of the same frame without an intervening
//! `frame_alloc` is rejected, so a double free cannot corrupt the pool.

use vstd::prelude::*;

verus! {

/// Whether the vector holds `x`.
fn vec_contains_u64(v: &Vec<u64>, x: u64) -> (r: bool)
    ensures
        r == v@.contains(x),
{
    let n = v.len();
    let mut i: usize = 0;
    while i < n
        invariant
            n == v@.len(),
            i <= n,
            forall|j: int| 0 <= j < i ==> v@[j] != x,
        decreases n - i,
    {
        if v[i] == x {
            return true;
        }
        i = i + 1;
    }
    proof {
        assert(!v@.contains(x));
    }
    false
}

/// Allocator of physical page frames from the pool `[base, end)`.
pub struct FrameAllocator {
    /// First page number of the pool.
    pub base: u64,
    /// Next page number that has never been handed out.
    pub next: u64,
    /// One past the last page number of the pool.
    pub end: u64,
    /// Page numbers returned to the pool, each below `next`.
    pub recycled: Vec<u64>,
}

impl FrameAllocator {
    /// Structural invariant of the pool.
    pub open spec fn wf(self) -> bool {
        &&& self.base <= self.next <= self.end
        &&& forall|i: int|
            0 <= i < self.recycled@.len() ==> self.base <= #[trigger] self.recycled@[i]
                < self.next
        &&& forall|i: int, j: int|
            0 <= i < j < self.recycled@.len() ==> self.recycled@[i] != self.recycled@[j]
    }

    /// The frame is in the free pool.
    pub open spec fn is_free(self, p: u64) -> bool {
        self.recycled@.contains(p) || (self.next <= p < self.end)
    }

    /// The frame belongs to the pool and is currently handed out.
    pub open spec fn allocated(self, p: u64) -> bool {
        self.base <= p < self.end && !self.is_free(p)
    }

    /// Number of frames in the free pool.
    pub open spec fn free_count(self) -> int {
        self.recycled@.len() + self.end - self.next
    }

    /// The two states manage the same pool of frames.
    pub open spec fn same_pool(self, other: Self) -> bool {
        self.base == other.base && self.end == other.end
    }

    /// If no handed-out frame was returned between two states of one pool,
    /// the free set can only have shrunk.
    pub proof fn lemma_free_shrinks(fa0: FrameAllocator, fa1: FrameAllocator)
        requires
            fa0.wf(),
            fa1.wf(),
            fa1.same_pool(fa0),
            forall|q: u64| fa0.allocated(q) ==> fa1.allocated(q),
        ensures
            forall|q: u64| fa1.is_free(q) ==> fa0.is_free(q),
    {
        assert forall|q: u64| fa1.is_free(q) implies fa0.is_free(q) by {
            if fa1.recycled@.contains(q) {
                let i = choose|i: int| 0 <= i < fa1.recycled@.len() && fa1.recycled@[i] == q;
                assert(fa1.base <= q < fa1.next);
            }
            assert(fa0.base <= q < fa0.end);
            if !fa0.is_free(q) {
                assert(fa0.allocated(q));
                assert(fa1.allocated(q));
            }
        };
    }

    /// A fresh allocator owning the frames `[base, end)`, all free.
    pub fn new(base: u64, end: u64) -> (r: FrameAllocator)
        requires
            base <= end,
        ensures
            r.wf(),
            r.base == base,
            r.end == end,
            r.free_count() == end - base,
            forall|q: u64| !r.allocated(q),
            forall|q: u64| r.is_free(q) == (base <= q < end),
    {
        FrameAllocator { base, next: base, end, recycled: Vec::new() }
    }

    /// Number of frames currently free.
    pub fn free_frames(&self) -> (r: u128)
        requires
            self.wf(),
        ensures
            r == self.free_count(),
    {
        (self.recycled.len() as u128) + ((self.end - self.next) as u128)
    }

    /// Hand out one free frame, or report exhaustion.
    pub fn frame_alloc(&mut self) -> (r: Option<u64>)
        requires
            old(self).wf(),
        ensures
            final(self).wf(),
            final(self).same_pool(*old(self)),
            r.is_some() == (old(self).free_count() > 0),
            match r {
                Some(p) => {
                    &&& old(self).is_free(p)
                    &&& final(self).allocated(p)
                    &&& old(self).base <= p < old(self).end
                    &&& forall|q: u64|
                        q != p ==> final(self).is_free(q) == old(self).is_free(q)
                    &&& forall|q: u64|
                        final(self).allocated(q) == (old(self).allocated(q) || q == p)
                    &&& final(self).free_count() == old(self).free_count() - 1
                },
                None => *final(self) == *old(self),
            },
    {
        let n = self.recycled.len();
        if n > 0 {
            let ghost before = self.recycled@;
            let p = match self.recycled.pop() {
                Some(p) => p,
                None => {
                    proof {
                        assert(false);
                    }
                    0
                },
            };
            proof {
                assert(before[before.len() - 1] == p);
                assert(before.contains(p));
                assert(!self.recycled@.contains(p)) by {
                    if self.recycled@.contains(p) {
                        let i = choose|i: int|
                            0 <= i < self.recycled@.len() && self.recycled@[i] == p;
                        assert(before[i] == p);
                    }
                };
                assert forall|q: u64| q != p implies self.is_free(q) == old(self).is_free(q) by {
                    if before.contains(q) {
                        let i = choose|i: int| 0 <= i < before.len() && before[i] == q;
                        assert(i != before.len() - 1);
                        assert(self.recycled@[i] == q);
                    }
                    if self.recycled@.contains(q) {
                        let i = choose|i: int|
                            0 <= i < self.recycled@.len() && self.recycled@[i] == q;
                        assert(before[i] == q);
                    }
                };
            }
            Some(p)
        } else if self.next < self.end {
            let p = self.next;
            self.next = self.next + 1;
            proof {
                assert(!self.recycled@.contains(p)) by {
                    if self.recycled@.contains(p) {
                        let i = choose|i: int|
                            0 <= i < self.recycled@.len() && self.recycled@[i] == p;
                    }
                };
            }
            Some(p)
        } else {
            None
        }
    }

    /// Return a frame to the pool; a frame that is not currently handed out
    /// is rejected and the pool is unchanged.
    pub fn frame_dealloc(&mut self, ppn: u64) -> (r: bool)
        requires
            old(self).wf(),
        ensures
            final(self).wf(),
            final(self).same_pool(*old(self)),
            final(self).next == old(self).next,
            r == old(self).allocated(ppn),
            r ==> forall|q: u64| final(self).is_free(q) == (old(self).is_free(q) || q == ppn),
            r ==> forall|q: u64|
                q != ppn ==> final(self).allocated(q) == old(self).allocated(q),
            r ==> !final(self).allocated(ppn),
            r ==> final(self).free_count() == old(self).free_count() + 1,
            !r ==> *final(self) == *old(self),
    {
        if ppn < self.base || ppn >= self.next {
            proof {
                if self.next <= ppn < self.end {
                } else if self.recycled@.contains(ppn) {
                    let i = choose|i: int|
                        0 <= i < self.recycled@.len() && self.recycled@[i] == ppn;
                }
            }
            return false;
        }
        if vec_contains_u64(&self.recycled, ppn) {
            return false;
        }
        let ghost before = self.recycled@;
        self.recycled.push(ppn);
        proof {
            assert(self.recycled@[before.len() as int] == ppn);
            assert forall|q: u64| self.is_free(q) == (old(self).is_free(q) || q == ppn) by {
                if self.recycled@.contains(q) {
                    let i = choose|i: int|
                        0 <= i < self.recycled@.len() && self.recycled@[i] == q;
                    if i < before.len() {
                        assert(before[i] == q);
                    }
                }
                if before.contains(q) {
                    let i = choose|i: int| 0 <= i < before.len() && before[i] == q;
                    assert(self.recycled@[i] == q);
                }
                if q == ppn {
                    assert(self.recycled@.contains(q));
                }
            };
        }
        true
    }
}

} // verus!
