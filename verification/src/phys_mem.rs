//! The byte contents of the physical frames handed to the memory subsystem.
//!
//! The kernel reads and writes frames through their physical byte view (for
//! example when an executable image's segments are copied into freshly
//! allocated frames).  This module models that view: one byte vector per
//! frame of the pool, addressed by physical page number and offset.

use vstd::prelude::*;
use crate::config::PAGE_BYTES;

verus! {

/// Byte contents of the frame pool `[base, base + pages.len())`.
pub struct PhysMemory {
    /// First physical page number whose contents are modeled.
    pub base: u64,
    /// `pages[i]` holds the bytes of frame `base + i`.
    pub pages: Vec<Vec<u8>>,
}

impl PhysMemory {
    /// Every modeled frame holds exactly one page of bytes.
    pub open spec fn wf(self) -> bool {
        forall|i: int| 0 <= i < self.pages@.len() ==> #[trigger] self.pages@[i]@.len()
            == PAGE_BYTES
    }

    /// Whether frame `ppn` is part of the modeled pool.
    pub open spec fn holds(self, ppn: u64) -> bool {
        self.base <= ppn < self.base + self.pages@.len()
    }

    /// The bytes of frame `ppn`.
    pub open spec fn page(self, ppn: u64) -> Seq<u8> {
        self.pages@[ppn - self.base]@
    }

    /// The two states model the same pool.
    pub open spec fn same_extent(self, other: Self) -> bool {
        self.base == other.base && self.pages@.len() == other.pages@.len()
    }

    /// A pool of `count` zero-filled frames starting at frame `base`.
    pub fn new(base: u64, count: usize) -> (r: PhysMemory)
        requires
            base + count <= u64::MAX,
        ensures
            r.wf(),
            r.base == base,
            r.pages@.len() == count,
            forall|p: u64| r.holds(p) == (base <= p < base + count),
    {
        let mut pages: Vec<Vec<u8>> = Vec::new();
        let mut i: usize = 0;
        while i < count
            invariant
                i <= count,
                pages@.len() == i,
                forall|j: int| 0 <= j < i ==> #[trigger] pages@[j]@.len() == PAGE_BYTES,
            decreases count - i,
        {
            pages.push(vec![0u8; PAGE_BYTES]);
            i = i + 1;
        }
        PhysMemory { base, pages }
    }

    /// Read one byte of frame `ppn`.
    pub fn read_byte(&self, ppn: u64, off: usize) -> (r: u8)
        requires
            self.wf(),
            self.holds(ppn),
            off < PAGE_BYTES,
        ensures
            r == self.page(ppn)[off as int],
    {
        let count = self.pages.len();
        let idx: usize = (ppn - self.base) as usize;
        self.pages[idx][off]
    }

    /// Overwrite `src[src_start..src_end]` into frame `ppn` at `dst_off`.
    pub fn write_range(
        &mut self,
        ppn: u64,
        dst_off: usize,
        src: &[u8],
        src_start: usize,
        src_end: usize,
    )
        requires
            old(self).wf(),
            old(self).holds(ppn),
            src_start <= src_end <= src@.len(),
            dst_off + (src_end - src_start) <= PAGE_BYTES,
        ensures
            final(self).wf(),
            final(self).same_extent(*old(self)),
            final(self).base == old(self).base,
            forall|p: u64| final(self).holds(p) == old(self).holds(p),
            forall|p: u64| p != ppn && old(self).holds(p) ==> final(self).page(p) == old(
                self,
            ).page(p),
            forall|j: int|
                0 <= j < PAGE_BYTES ==> final(self).page(ppn)[j] == if dst_off <= j < dst_off + (
                src_end - src_start) {
                    src@[src_start + (j - dst_off)]
                } else {
                    old(self).page(ppn)[j]
                },
    {
        let count = self.pages.len();
        let idx: usize = (ppn - self.base) as usize;
        let n = src_end - src_start;
        let mut j: usize = 0;
        while j < n
            invariant
                old(self).wf(),
                self.wf(),
                self.base == old(self).base,
                self.pages@.len() == old(self).pages@.len(),
                idx == ppn - self.base,
                idx < self.pages@.len(),
                n == src_end - src_start,
                src_start + n <= src@.len(),
                dst_off + n <= PAGE_BYTES,
                j <= n,
                forall|p: int| 0 <= p < self.pages@.len() && p != idx ==> self.pages@[p]
                    == old(self).pages@[p],
                forall|t: int|
                    0 <= t < PAGE_BYTES ==> self.pages@[idx as int]@[t] == if dst_off <= t
                        < dst_off + j {
                        src@[src_start + (t - dst_off)]
                    } else {
                        old(self).pages@[idx as int]@[t]
                    },
            decreases n - j,
        {
            let b = src[src_start + j];
            self.pages[idx][dst_off + j] = b;
            j = j + 1;
        }
    }

    /// Read `len` bytes of frame `ppn` starting at `off`.
    pub fn read_range(&self, ppn: u64, off: usize, len: usize) -> (r: Vec<u8>)
        requires
            self.wf(),
            self.holds(ppn),
            off + len <= PAGE_BYTES,
        ensures
            r@.len() == len,
            forall|j: int| 0 <= j < len ==> r@[j] == self.page(ppn)[off + j],
    {
        let count = self.pages.len();
        let idx: usize = (ppn - self.base) as usize;
        let mut out: Vec<u8> = Vec::new();
        let mut j: usize = 0;
        while j < len
            invariant
                self.wf(),
                self.holds(ppn),
                idx == ppn - self.base,
                idx < self.pages@.len(),
                off + len <= PAGE_BYTES,
                j <= len,
                out@.len() == j,
                forall|t: int| 0 <= t < j ==> out@[t] == self.page(ppn)[off + t],
            decreases len - j,
        {
            out.push(self.pages[idx][off + j]);
            j = j + 1;
        }
        out
    }
}

} // verus!
