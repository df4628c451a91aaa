//! Contiguous mapped regions of an address space.
//!
//! A region is a half-open range of virtual pages with a mapping kind and a
//! permission set.  An `Identical` region maps each page to the numerically
//! identical frame and owns nothing; a `Framed` region owns the frames it has
//! committed, page by page, and may be filled lazily.  Kind and permissions
//! are fixed at creation; the extent and the committed-frame set change.

use vstd::prelude::*;
use crate::addr::{VPNRange, VirtAddr, VirtPageNum};
use crate::config::PAGE_SIZE;
use crate::error::{MMError, MMResult, PageError};
use crate::frame_alloc::FrameAllocator;
use crate::keymap::KeyMap;
use crate::page_table::{PageTable, PageTableEntry, PTE_V};
use crate::phys_mem::PhysMemory;
use crate::config::PAGE_BYTES;

verus! {

/// Number of pages needed to hold `len` bytes of data.
pub open spec fn pages_of(len: int) -> int {
    (len + PAGE_BYTES - 1) / (PAGE_BYTES as int)
}

/// Permission bit: readable.
pub const PERM_R: u8 = 2;

/// Permission bit: writable.
pub const PERM_W: u8 = 4;

/// Permission bit: executable.
pub const PERM_X: u8 = 8;

/// Permission bit: accessible from user mode.
pub const PERM_U: u8 = 16;

/// The permission set of a region: a subset of the R, W, X and U bits, laid
/// out exactly like the corresponding page-table entry flags.
#[derive(Clone, Copy, PartialEq, Eq, Structural, Debug)]
pub struct MapPermission {
    /// The permission bits.
    pub bits: u8,
}

impl MapPermission {
    /// Only the four permission bits may be set.
    pub open spec fn wf(self) -> bool {
        self.bits & 0xe1 == 0
    }

    /// Build a permission set, refusing stray bits.
    pub fn from_bits(bits: u8) -> (r: Option<MapPermission>)
        ensures
            r == if bits & 0xe1 == 0 {
                Some(MapPermission { bits })
            } else {
                None::<MapPermission>
            },
            r.is_some() ==> r.unwrap().wf(),
    {
        if bits & 0xe1 == 0 {
            Some(MapPermission { bits })
        } else {
            None
        }
    }

    /// The permission bits.
    pub fn get_bits(&self) -> (r: u8)
        ensures
            r == self.bits,
    {
        self.bits
    }

    /// The union of two permission sets.
    pub fn union(self, other: MapPermission) -> (r: MapPermission)
        ensures
            r.bits == self.bits | other.bits,
            self.wf() && other.wf() ==> r.wf(),
    {
        proof {
            let a = self.bits;
            let b = other.bits;
            if a & 0xe1 == 0 && b & 0xe1 == 0 {
                assert((a | b) & 0xe1 == 0) by (bit_vector)
                    requires
                        a & 0xe1 == 0,
                        b & 0xe1 == 0,
                ;
            }
        }
        MapPermission { bits: self.bits | other.bits }
    }
}

/// How a region maps its pages.
#[derive(Clone, Copy, PartialEq, Eq, Structural, Debug)]
pub enum MapType {
    /// Each page maps to the numerically identical frame.
    Identical,
    /// Each page maps to a dynamically allocated frame the region owns.
    Framed,
}

/// A contiguous mapped region: a page range, a kind, a permission set, and
/// the frames committed so far (always empty for `Identical` regions).
pub struct MapArea {
    /// The region's extent.
    pub vpn_range: VPNRange,
    /// The frames the region owns, keyed by virtual page number.
    pub data_frames: KeyMap<u64>,
    /// The mapping kind.
    pub map_type: MapType,
    /// The permission set.
    pub map_permission: MapPermission,
}

impl MapArea {
    /// The committed frames as a mathematical map.
    pub open spec fn frames(self) -> Map<u64, u64> {
        self.data_frames@
    }

    /// Whether the region owns frame `p`.
    pub open spec fn owns_frame(self, p: u64) -> bool {
        exists|k: u64| #[trigger] self.frames().contains_key(k) && self.frames()[k] == p
    }

    /// Structural invariant: ordered extent, committed frames inside the
    /// extent, and no frames at all for `Identical` regions.
    pub open spec fn wf(self) -> bool {
        &&& self.vpn_range.wf()
        &&& self.data_frames.wf()
        &&& self.map_permission.wf()
        &&& forall|k: u64| #[trigger] self.frames().contains_key(k) ==> self.vpn_range.has(k)
        &&& self.map_type == MapType::Identical ==> self.frames() == Map::<u64, u64>::empty()
    }

    /// Every committed frame is handed out by the allocator, and no two
    /// pages of the region share a frame.
    pub open spec fn frames_ok(self, fa: FrameAllocator) -> bool {
        &&& forall|k: u64|
            #[trigger] self.frames().contains_key(k) ==> fa.allocated(self.frames()[k])
        &&& forall|k1: u64, k2: u64|
            self.frames().contains_key(k1) && self.frames().contains_key(k2)
                && #[trigger] self.frames()[k1] == #[trigger] self.frames()[k2] ==> k1 == k2
    }

    /// A fresh region covering `[floor(start), ceil(end))` with no frames.
    pub fn new(
        start_virt_addr: VirtAddr,
        end_virt_addr: VirtAddr,
        map_type: MapType,
        map_perm: MapPermission,
    ) -> (r: MapArea)
        requires
            start_virt_addr.0 <= end_virt_addr.0,
            end_virt_addr.wf(),
            map_perm.wf(),
        ensures
            r.wf(),
            r.vpn_range.start.0 == start_virt_addr.0 / PAGE_SIZE,
            r.vpn_range.end.0 == (end_virt_addr.0 + PAGE_SIZE - 1) / (PAGE_SIZE as int),
            r.map_type == map_type,
            r.map_permission == map_perm,
            r.frames() == Map::<u64, u64>::empty(),
            r.data_frames.spec_len() == 0,
            forall|q: u64| !r.owns_frame(q),
    {
        let start_vpn = start_virt_addr.floor();
        let end_vpn = end_virt_addr.ceil();
        let r = MapArea {
            vpn_range: VPNRange::new(start_vpn, end_vpn),
            data_frames: KeyMap::new(),
            map_type,
            map_permission: map_perm,
        };
        proof {
            assert(forall|q: u64| !r.owns_frame(q));
        }
        r
    }

    /// The region's extent.
    pub fn get_vpn_range(&self) -> (r: VPNRange)
        ensures
            r == self.vpn_range,
    {
        self.vpn_range
    }

    /// Partition the region at page `vpn`.  Frame ownership transfers: the
    /// left part receives exactly the owned frames of pages below `vpn`, the
    /// right part the rest, and no frame is duplicated or dropped.
    pub fn split(self, vpn: VirtPageNum) -> (r: (MapArea, MapArea))
        requires
            self.wf(),
        ensures
            r.0.wf() && r.1.wf(),
            r.0.map_type == self.map_type && r.1.map_type == self.map_type,
            r.0.map_permission == self.map_permission && r.1.map_permission
                == self.map_permission,
            forall|k: u64|
                r.0.frames().contains_key(k) == (self.frames().contains_key(k) && k < vpn.0),
            forall|k: u64|
                r.1.frames().contains_key(k) == (self.frames().contains_key(k) && k >= vpn.0),
            forall|k: u64|
                #[trigger] r.0.frames().contains_key(k) ==> r.0.frames()[k] == self.frames()[k],
            forall|k: u64|
                #[trigger] r.1.frames().contains_key(k) ==> r.1.frames()[k] == self.frames()[k],
            if vpn.0 <= self.vpn_range.start.0 {
                r.0.vpn_range == (VPNRange { start: vpn, end: vpn }) && r.1.vpn_range
                    == self.vpn_range
            } else if vpn.0 >= self.vpn_range.end.0 {
                r.0.vpn_range == self.vpn_range && r.1.vpn_range == (VPNRange {
                    start: vpn,
                    end: vpn,
                })
            } else {
                r.0.vpn_range == (VPNRange { start: self.vpn_range.start, end: vpn })
                    && r.1.vpn_range == (VPNRange { start: vpn, end: self.vpn_range.end })
            },
    {
        let ghost s0 = self;
        let MapArea { vpn_range, mut data_frames, map_type, map_permission } = self;
        let ghost orig = data_frames@;
        let mut left: KeyMap<u64> = KeyMap::new();
        let mut right: KeyMap<u64> = KeyMap::new();
        loop
            invariant
                data_frames.wf(),
                left.wf(),
                right.wf(),
                forall|k: u64|
                    left@.contains_key(k) == (orig.contains_key(k)
                        && !data_frames@.contains_key(k) && k < vpn.0),
                forall|k: u64|
                    right@.contains_key(k) == (orig.contains_key(k)
                        && !data_frames@.contains_key(k) && k >= vpn.0),
                forall|k: u64| #[trigger] left@.contains_key(k) ==> left@[k] == orig[k],
                forall|k: u64| #[trigger] right@.contains_key(k) ==> right@[k] == orig[k],
                forall|k: u64|
                    #[trigger] data_frames@.contains_key(k) ==> orig.contains_key(k)
                        && data_frames@[k] == orig[k],
            ensures
                left.wf(),
                right.wf(),
                forall|k: u64| left@.contains_key(k) == (orig.contains_key(k) && k < vpn.0),
                forall|k: u64| right@.contains_key(k) == (orig.contains_key(k) && k >= vpn.0),
                forall|k: u64| #[trigger] left@.contains_key(k) ==> left@[k] == orig[k],
                forall|k: u64| #[trigger] right@.contains_key(k) ==> right@[k] == orig[k],
            decreases data_frames.spec_len(),
        {
            match data_frames.pop_pair() {
                Some(pair) => {
                    if pair.0 < vpn.0 {
                        left.insert(pair.0, pair.1);
                    } else {
                        right.insert(pair.0, pair.1);
                    }
                },
                None => {
                    break;
                },
            }
        }
        proof {
            assert forall|k: u64| #[trigger] left@.contains_key(k) implies s0.vpn_range.has(k) && k
                < vpn.0 by {
                assert(s0.frames().contains_key(k));
            };
            assert forall|k: u64| #[trigger] right@.contains_key(k) implies s0.vpn_range.has(k)
                && k >= vpn.0 by {
                assert(s0.frames().contains_key(k));
            };
            if s0.map_type == MapType::Identical {
                assert(left@ =~= Map::<u64, u64>::empty());
                assert(right@ =~= Map::<u64, u64>::empty());
            }
        }
        let left_area: MapArea;
        let right_area: MapArea;
        if vpn.0 <= vpn_range.start.0 {
            left_area = MapArea {
                vpn_range: VPNRange { start: vpn, end: vpn },
                data_frames: left,
                map_type,
                map_permission,
            };
            right_area = MapArea {
                vpn_range,
                data_frames: right,
                map_type,
                map_permission,
            };
        } else if vpn.0 >= vpn_range.end.0 {
            left_area = MapArea {
                vpn_range,
                data_frames: left,
                map_type,
                map_permission,
            };
            right_area = MapArea {
                vpn_range: VPNRange { start: vpn, end: vpn },
                data_frames: right,
                map_type,
                map_permission,
            };
        } else {
            left_area = MapArea {
                vpn_range: VPNRange { start: vpn_range.start, end: vpn },
                data_frames: left,
                map_type,
                map_permission,
            };
            right_area = MapArea {
                vpn_range: VPNRange { start: vpn, end: vpn_range.end },
                data_frames: right,
                map_type,
                map_permission,
            };
        }
        (left_area, right_area)
    }

    /// Commit one page: if `vpn` owns no frame yet, take one, record the
    /// ownership, and install the page-table mapping; if the installation
    /// fails, give the frame back, leaving region, table and pool as before.
    #[verifier::rlimit(100)]
    #[verifier::spinoff_prover]
    fn check_page_raw(
        &mut self,
        page_table: &mut PageTable,
        fa: &mut FrameAllocator,
        vpn: VirtPageNum,
    ) -> (r: MMResult<()>)
        requires
            old(self).wf(),
            old(page_table).wf(),
            old(fa).wf(),
            old(self).map_type == MapType::Framed,
            old(self).vpn_range.has(vpn.0),
            old(page_table).frames_ok(*old(fa)),
            old(self).frames_ok(*old(fa)),
        ensures
            final(self).wf(),
            final(page_table).wf(),
            final(fa).wf(),
            final(fa).same_pool(*old(fa)),
            final(self).frames_ok(*final(fa)),
            final(page_table).frames_ok(*final(fa)),
            final(self).vpn_range == old(self).vpn_range,
            final(self).map_type == old(self).map_type,
            final(self).map_permission == old(self).map_permission,
            final(page_table).root_ppn == old(page_table).root_ppn,
            r.is_ok() == (old(self).frames().contains_key(vpn.0) || (!old(page_table).mapping().contains_key(vpn.0) && old(fa).free_count() >= 1 + old(page_table).dirs_missing(vpn.0))),
            old(self).frames().contains_key(vpn.0) ==> *final(self) == *old(self) && *final(page_table) == *old(page_table) && *final(fa) == *old(fa) && r.is_ok(),
            r.is_ok() && !old(self).frames().contains_key(vpn.0) ==> {
                let f = final(self).frames()[vpn.0];
                &&& old(fa).is_free(f)
                &&& final(self).frames() == old(self).frames().insert(vpn.0, f)
                &&& final(page_table).mapping() == old(page_table).mapping().insert(
                    vpn.0,
                    PageTableEntry { ppn: f, flags: old(self).map_permission.bits | PTE_V },
                )
                &&& forall|k: u64|
                    final(page_table).dir1@.contains_key(k) == (old(page_table).dir1@.contains_key(k) || k == vpn.0 >> 18)
                &&& forall|k: u64|
                    final(page_table).dir0@.contains_key(k) == (old(page_table).dir0@.contains_key(k) || k == vpn.0 >> 9)
                &&& forall|k: u64|
                    #[trigger] old(page_table).dir1@.contains_key(k) ==> final(page_table).dir1@[k] == old(page_table).dir1@[k]
                &&& forall|k: u64|
                    #[trigger] old(page_table).dir0@.contains_key(k) ==> final(page_table).dir0@[k] == old(page_table).dir0@[k]
                &&& !old(page_table).dir1@.contains_key(vpn.0 >> 18) ==> old(fa).is_free(
                    final(page_table).dir1@[vpn.0 >> 18],
                )
                &&& !old(page_table).dir0@.contains_key(vpn.0 >> 9) ==> old(fa).is_free(
                    final(page_table).dir0@[vpn.0 >> 9],
                )
                &&& forall|q: u64| old(fa).allocated(q) ==> final(fa).allocated(q)
                &&& !final(page_table).owns(final(self).frames()[vpn.0])
                &&& final(fa).free_count() == old(fa).free_count() - 1 - old(page_table).dirs_missing(vpn.0)
                &&& final(self).data_frames.spec_len() == old(self).data_frames.spec_len() + 1
                &&& final(page_table).dir1.spec_len() == old(page_table).dir1.spec_len() + (
                if old(page_table).dir1@.contains_key(vpn.0 >> 18) {
                    0int
                } else {
                    1int
                })
                &&& final(page_table).dir0.spec_len() == old(page_table).dir0.spec_len() + (
                if old(page_table).dir0@.contains_key(vpn.0 >> 9) {
                    0int
                } else {
                    1int
                })
            },
            r.is_err() ==> {
                &&& final(self).frames() == old(self).frames()
                &&& final(self).data_frames.spec_len() == old(self).data_frames.spec_len()
                &&& final(page_table).mapping() == old(page_table).mapping()
                &&& final(page_table).dir1@ == old(page_table).dir1@
                &&& final(page_table).dir0@ == old(page_table).dir0@
                &&& final(page_table).dir1.spec_len() == old(page_table).dir1.spec_len()
                &&& final(page_table).dir0.spec_len() == old(page_table).dir0.spec_len()
                &&& forall|q: u64| final(fa).is_free(q) == old(fa).is_free(q)
                &&& forall|q: u64| final(fa).allocated(q) == old(fa).allocated(q)
                &&& final(fa).free_count() == old(fa).free_count()
            },
            match r {
                Ok(()) => true,
                Err(e) => {
                    &&& (e == MMError::PageError(PageError::PageAlreadyAlloc) <==> old(fa).free_count()
                        >= 1 && old(page_table).mapping().contains_key(vpn.0))
                    &&& (e == MMError::MemoryNotEnough <==> (old(fa).free_count() == 0 || (!old(page_table).mapping().contains_key(vpn.0) && old(fa).free_count() < 1 + old(page_table).dirs_missing(vpn.0))))
                },
            },
    {
        if self.data_frames.contains_key(vpn.0) {
            return Ok(());
        }
        let f = match fa.frame_alloc() {
            Some(f) => f,
            None => {
                return Err(MMError::MemoryNotEnough);
            },
        };
        self.data_frames.insert(vpn.0, f);
        let ghost fa1 = *fa;
        match page_table.map(fa, vpn.0, f, self.map_permission.bits) {
            Ok(()) => {
                proof {
                    assert(final(self).frames() =~= old(self).frames().insert(vpn.0, f));
                    assert(!page_table.owns(f)) by {
                        if page_table.owns(f) {
                            if f == page_table.root_ppn {
                                assert(old(fa).allocated(f));
                            } else if exists|k2: u64|
                                #[trigger] page_table.dir1@.contains_key(k2)
                                    && page_table.dir1@[k2] == f {
                                let k2 = choose|k2: u64|
                                    #[trigger] page_table.dir1@.contains_key(k2)
                                        && page_table.dir1@[k2] == f;
                                if old(page_table).dir1@.contains_key(k2) {
                                    assert(old(fa).allocated(f));
                                } else {
                                    assert(fa1.is_free(f));
                                }
                            } else {
                                let k2 = choose|k2: u64|
                                    #[trigger] page_table.dir0@.contains_key(k2)
                                        && page_table.dir0@[k2] == f;
                                if old(page_table).dir0@.contains_key(k2) {
                                    assert(old(fa).allocated(f));
                                } else {
                                    assert(fa1.is_free(f));
                                }
                            }
                        }
                    };
                    assert forall|k1: u64, k2: u64|
                        self.frames().contains_key(k1) && self.frames().contains_key(k2)
                            && #[trigger] self.frames()[k1] == #[trigger] self.frames()[k2] implies k1
                        == k2 by {
                        if k1 != k2 {
                            if k1 == vpn.0 {
                                assert(old(self).frames().contains_key(k2));
                                assert(fa1.allocated(old(self).frames()[k2]));
                            } else if k2 == vpn.0 {
                                assert(old(self).frames().contains_key(k1));
                                assert(fa1.allocated(old(self).frames()[k1]));
                            } else {
                                assert(old(self).frames().contains_key(k1));
                                assert(old(self).frames().contains_key(k2));
                            }
                        }
                    };
                }
                Ok(())
            },
            Err(e) => {
                self.data_frames.remove(vpn.0);
                let ok = fa.frame_dealloc(f);
                proof {
                    assert(ok);
                    assert(final(self).frames() =~= old(self).frames());
                    assert forall|q: u64| final(fa).is_free(q) == old(fa).is_free(q) by {
                        if q != f {
                            assert(fa1.is_free(q) == old(fa).is_free(q));
                        }
                    };
                }
                Err(e)
            },
        }
    }

    /// Commit every page of `vpn_range` that falls inside this region.  A
    /// no-op for `Identical` regions, whose mapping is purely arithmetic.
    /// Pages committed before a failure stay committed and tracked.
    #[verifier::rlimit(100)]
    #[verifier::spinoff_prover]
    pub fn check_range(
        &mut self,
        page_table: &mut PageTable,
        fa: &mut FrameAllocator,
        vpn_range: VPNRange,
    ) -> (r: MMResult<()>)
        requires
            old(self).wf(),
            old(page_table).wf(),
            old(fa).wf(),
            vpn_range.wf(),
            old(page_table).frames_ok(*old(fa)),
            old(self).frames_ok(*old(fa)),
        ensures
            final(self).wf(),
            final(page_table).wf(),
            final(fa).wf(),
            final(fa).same_pool(*old(fa)),
            final(self).frames_ok(*final(fa)),
            final(page_table).frames_ok(*final(fa)),
            final(self).vpn_range == old(self).vpn_range,
            final(self).map_type == old(self).map_type,
            final(self).map_permission == old(self).map_permission,
            final(page_table).root_ppn == old(page_table).root_ppn,
            old(self).map_type == MapType::Identical ==> r.is_ok() && *final(self) == *old(self)
                && *final(page_table) == *old(page_table) && *final(fa) == *old(fa),
            forall|v: u64|
                #[trigger] old(self).frames().contains_key(v) ==> final(self).frames().contains_key(v) && final(self).frames()[v] == old(self).frames()[v],
            forall|v: u64|
                final(self).frames().contains_key(v) ==> old(self).frames().contains_key(v) || (
                old(self).vpn_range.has(v) && vpn_range.has(v)),
            forall|v: u64|
                #[trigger] final(self).frames().contains_key(v) && !old(self).frames().contains_key(v) ==> {
                    &&& old(fa).is_free(final(self).frames()[v])
                    &&& final(page_table).mapping().contains_key(v)
                    &&& final(page_table).mapping()[v] == (PageTableEntry {
                        ppn: final(self).frames()[v],
                        flags: old(self).map_permission.bits | PTE_V,
                    })
                    &&& !final(page_table).owns(final(self).frames()[v])
                },
            forall|v: u64|
                #[trigger] old(page_table).mapping().contains_key(v) ==> final(page_table).mapping().contains_key(v) && final(page_table).mapping()[v] == old(page_table).mapping()[v],
            forall|v: u64|
                final(page_table).mapping().contains_key(v) == (old(page_table).mapping().contains_key(v) || (final(self).frames().contains_key(v) && !old(self).frames().contains_key(v))),
            forall|k: u64|
                #[trigger] old(page_table).dir1@.contains_key(k) ==> final(page_table).dir1@.contains_key(k) && final(page_table).dir1@[k] == old(page_table).dir1@[k],
            forall|k: u64|
                #[trigger] old(page_table).dir0@.contains_key(k) ==> final(page_table).dir0@.contains_key(k) && final(page_table).dir0@[k] == old(page_table).dir0@[k],
            forall|k: u64|
                final(page_table).dir1@.contains_key(k) && !old(page_table).dir1@.contains_key(k)
                    ==> old(fa).is_free(final(page_table).dir1@[k]),
            forall|k: u64|
                final(page_table).dir0@.contains_key(k) && !old(page_table).dir0@.contains_key(k)
                    ==> old(fa).is_free(final(page_table).dir0@[k]),
            forall|q: u64| old(fa).allocated(q) ==> final(fa).allocated(q),
            final(page_table).dir1.spec_len() >= old(page_table).dir1.spec_len(),
            final(page_table).dir0.spec_len() >= old(page_table).dir0.spec_len(),
            final(fa).free_count() == old(fa).free_count() - (final(self).data_frames.spec_len()
                - old(self).data_frames.spec_len()) - (final(page_table).dir1.spec_len() - old(page_table).dir1.spec_len()) - (final(page_table).dir0.spec_len() - old(page_table).dir0.spec_len()),
            r.is_ok() && old(self).map_type == MapType::Framed ==> forall|v: u64|
                old(self).vpn_range.has(v) && vpn_range.has(v) ==> final(self).frames().contains_key(v),
            (forall|v: u64|
                old(self).vpn_range.has(v) && vpn_range.has(v) && !old(self).frames().contains_key(v) ==> !old(page_table).mapping().contains_key(v)) && old(fa).free_count() >= 3 * vpn_range.len_spec() ==> r.is_ok(),
            final(fa).free_count() >= old(fa).free_count() - 3 * vpn_range.len_spec(),
            (forall|v: u64|
                old(self).vpn_range.has(v) && vpn_range.has(v) ==> old(self).frames().contains_key(v)) ==> r.is_ok() && *final(self) == *old(self) && *final(page_table) == *old(page_table) && *final(fa) == *old(fa),
            match r {
                Ok(()) => true,
                Err(e) => e == MMError::MemoryNotEnough || e == MMError::PageError(
                    PageError::PageAlreadyAlloc,
                ),
            },
    {
        match self.map_type {
            MapType::Identical => Ok(()),
            MapType::Framed => {
                let inter = self.vpn_range.intersection(&vpn_range);
                let ghost self0 = *self;
                let ghost pt0 = *page_table;
                let ghost fa0 = *fa;
                let mut v = inter.get_start();
                let end = inter.get_end();
                let ghost budget = fa0.free_count();
                while v.0 < end.0
                    invariant
                        self0 == *old(self),
                        pt0 == *old(page_table),
                        fa0 == *old(fa),
                        vpn_range.wf(),
                        self0.wf(),
                        pt0.wf(),
                        fa0.wf(),
                        self0.frames_ok(fa0),
                        pt0.frames_ok(fa0),
                        self.wf(),
                        page_table.wf(),
                        fa.wf(),
                        fa.same_pool(fa0),
                        self.frames_ok(*fa),
                        page_table.frames_ok(*fa),
                        self.vpn_range == self0.vpn_range,
                        self.map_type == self0.map_type,
                        self.map_type == MapType::Framed,
                        self.map_permission == self0.map_permission,
                        page_table.root_ppn == pt0.root_ppn,
                        inter.wf(),
                        inter.start.0 <= v.0 <= inter.end.0,
                        end == inter.end,
                        forall|w: u64| inter.has(w) == (self0.vpn_range.has(w) && vpn_range.has(w)),
                        forall|w: u64|
                            #[trigger] self0.frames().contains_key(w) ==> self.frames().contains_key(w) && self.frames()[w] == self0.frames()[w],
                        forall|w: u64|
                            self.frames().contains_key(w) ==> self0.frames().contains_key(w)
                                || inter.has(w),
                        forall|w: u64|
                            self.frames().contains_key(w) && !self0.frames().contains_key(w) ==> {
                                &&& fa0.is_free(self.frames()[w])
                                &&& page_table.mapping().contains_key(w)
                                &&& page_table.mapping()[w] == (PageTableEntry {
                                    ppn: self.frames()[w],
                                    flags: self0.map_permission.bits | PTE_V,
                                })
                                &&& !page_table.owns(self.frames()[w])
                            },
                        forall|w: u64|
                            #[trigger] pt0.mapping().contains_key(w) ==> page_table.mapping().contains_key(w) && page_table.mapping()[w] == pt0.mapping()[w],
                        forall|w: u64|
                            page_table.mapping().contains_key(w) == (pt0.mapping().contains_key(w)
                                || (self.frames().contains_key(w) && !self0.frames().contains_key(w))),
                        forall|k: u64|
                            #[trigger] pt0.dir1@.contains_key(k) ==> page_table.dir1@.contains_key(k) && page_table.dir1@[k] == pt0.dir1@[k],
                        forall|k: u64|
                            #[trigger] pt0.dir0@.contains_key(k) ==> page_table.dir0@.contains_key(k) && page_table.dir0@[k] == pt0.dir0@[k],
                        forall|k: u64|
                            page_table.dir1@.contains_key(k) && !pt0.dir1@.contains_key(k)
                                ==> fa0.is_free(page_table.dir1@[k]),
                        forall|k: u64|
                            page_table.dir0@.contains_key(k) && !pt0.dir0@.contains_key(k)
                                ==> fa0.is_free(page_table.dir0@[k]),
                        forall|q: u64| fa0.allocated(q) ==> fa.allocated(q),
                        page_table.dir1.spec_len() >= pt0.dir1.spec_len(),
                        page_table.dir0.spec_len() >= pt0.dir0.spec_len(),
                        self.data_frames.spec_len() >= self0.data_frames.spec_len(),
                        fa.free_count() == fa0.free_count() - (self.data_frames.spec_len()
                            - self0.data_frames.spec_len()) - (page_table.dir1.spec_len()
                            - pt0.dir1.spec_len()) - (page_table.dir0.spec_len()
                            - pt0.dir0.spec_len()),
                        forall|w: u64|
                            inter.has(w) && w < v.0 ==> self.frames().contains_key(w),
                        budget == fa0.free_count(),
                        budget >= 3 * vpn_range.len_spec() ==> fa.free_count() >= 3 * (inter.end.0
                            - v.0),
                        (forall|w: u64|
                            self0.vpn_range.has(w) && vpn_range.has(w)
                                ==> self0.frames().contains_key(w)) ==> *self == self0
                            && *page_table == pt0 && *fa == fa0,
                        fa.free_count() >= fa0.free_count() - 3 * (v.0 - inter.start.0),
                        inter.len_spec() <= vpn_range.len_spec(),
                        forall|w: u64|
                            inter.has(w) && !self0.frames().contains_key(w) && !pt0.mapping().contains_key(w) && !self.frames().contains_key(w) ==> !page_table.mapping().contains_key(w),
                    decreases end.0 - v.0,
                {
                    let ghost fa_pre = *fa;
                    let ghost self_pre = *self;
                    let ghost pt_pre = *page_table;
                    proof {
                        assert(inter.has(v.0));
                    }
                    match self.check_page_raw(page_table, fa, v) {
                        Ok(()) => {},
                        Err(e) => {
                            proof {
                                FrameAllocator::lemma_free_shrinks(fa0, fa_pre);
                                if (forall|w: u64|
                                    self0.vpn_range.has(w) && vpn_range.has(w)
                                        && !self0.frames().contains_key(w)
                                        ==> !pt0.mapping().contains_key(w)) && fa0.free_count()
                                    >= 3 * vpn_range.len_spec() {
                                    assert(!self_pre.frames().contains_key(v.0));
                                    assert(!self0.frames().contains_key(v.0));
                                    assert(!pt0.mapping().contains_key(v.0));
                                    assert(!pt_pre.mapping().contains_key(v.0));
                                    assert(fa_pre.free_count() >= 3 * (inter.end.0 - v.0));
                                    assert(fa_pre.free_count() >= 3);
                                    assert(pt_pre.dirs_missing(v.0) <= 2);
                                    assert(false);
                                }
                            }
                            return Err(e);
                        },
                    }
                    proof {
                        FrameAllocator::lemma_free_shrinks(fa0, fa_pre);
                        assert(3 * (inter.end.0 - v.0) - 3 >= 3 * (inter.end.0 - (v.0 + 1)));
                    }
                    v.step();
                }
                Ok(())
            },
        }
    }

    /// Commit every page of the region (eager fill).
    #[verifier::rlimit(100)]
    #[verifier::spinoff_prover]
    pub fn check_all_page(&mut self, page_table: &mut PageTable, fa: &mut FrameAllocator) -> (r:
        MMResult<()>)
        requires
            old(self).wf(),
            old(page_table).wf(),
            old(fa).wf(),
            old(page_table).frames_ok(*old(fa)),
            old(self).frames_ok(*old(fa)),
        ensures
            final(self).wf(),
            final(page_table).wf(),
            final(fa).wf(),
            final(fa).same_pool(*old(fa)),
            final(self).frames_ok(*final(fa)),
            final(page_table).frames_ok(*final(fa)),
            final(self).vpn_range == old(self).vpn_range,
            final(self).map_type == old(self).map_type,
            final(self).map_permission == old(self).map_permission,
            final(page_table).root_ppn == old(page_table).root_ppn,
            old(self).map_type == MapType::Identical ==> r.is_ok() && *final(self) == *old(self)
                && *final(page_table) == *old(page_table) && *final(fa) == *old(fa),
            forall|v: u64|
                #[trigger] old(self).frames().contains_key(v) ==> final(self).frames().contains_key(v) && final(self).frames()[v] == old(self).frames()[v],
            forall|v: u64|
                final(self).frames().contains_key(v) ==> old(self).frames().contains_key(v) || old(self).vpn_range.has(v),
            forall|v: u64|
                #[trigger] final(self).frames().contains_key(v) && !old(self).frames().contains_key(v) ==> {
                    &&& old(fa).is_free(final(self).frames()[v])
                    &&& final(page_table).mapping().contains_key(v)
                    &&& final(page_table).mapping()[v] == (PageTableEntry {
                        ppn: final(self).frames()[v],
                        flags: old(self).map_permission.bits | PTE_V,
                    })
                    &&& !final(page_table).owns(final(self).frames()[v])
                },
            forall|v: u64|
                #[trigger] old(page_table).mapping().contains_key(v) ==> final(page_table).mapping().contains_key(v) && final(page_table).mapping()[v] == old(page_table).mapping()[v],
            forall|v: u64|
                final(page_table).mapping().contains_key(v) == (old(page_table).mapping().contains_key(v) || (final(self).frames().contains_key(v) && !old(self).frames().contains_key(v))),
            forall|k: u64|
                #[trigger] old(page_table).dir1@.contains_key(k) ==> final(page_table).dir1@.contains_key(k) && final(page_table).dir1@[k] == old(page_table).dir1@[k],
            forall|k: u64|
                #[trigger] old(page_table).dir0@.contains_key(k) ==> final(page_table).dir0@.contains_key(k) && final(page_table).dir0@[k] == old(page_table).dir0@[k],
            forall|k: u64|
                final(page_table).dir1@.contains_key(k) && !old(page_table).dir1@.contains_key(k)
                    ==> old(fa).is_free(final(page_table).dir1@[k]),
            forall|k: u64|
                final(page_table).dir0@.contains_key(k) && !old(page_table).dir0@.contains_key(k)
                    ==> old(fa).is_free(final(page_table).dir0@[k]),
            forall|q: u64| old(fa).allocated(q) ==> final(fa).allocated(q),
            final(page_table).dir1.spec_len() >= old(page_table).dir1.spec_len(),
            final(page_table).dir0.spec_len() >= old(page_table).dir0.spec_len(),
            final(fa).free_count() == old(fa).free_count() - (final(self).data_frames.spec_len()
                - old(self).data_frames.spec_len()) - (final(page_table).dir1.spec_len() - old(page_table).dir1.spec_len()) - (final(page_table).dir0.spec_len() - old(page_table).dir0.spec_len()),
            r.is_ok() && old(self).map_type == MapType::Framed ==> forall|v: u64|
                old(self).vpn_range.has(v) ==> final(self).frames().contains_key(v),
            (forall|v: u64|
                old(self).vpn_range.has(v) && !old(self).frames().contains_key(v) ==> !old(page_table).mapping().contains_key(v)) && old(fa).free_count() >= 3 * old(self).vpn_range.len_spec() ==> r.is_ok(),
            final(fa).free_count() >= old(fa).free_count() - 3 * old(self).vpn_range.len_spec(),
            (forall|v: u64|
                old(self).vpn_range.has(v) ==> old(self).frames().contains_key(v)) ==> r.is_ok()
                && *final(self) == *old(self) && *final(page_table) == *old(page_table) && *final(fa) == *old(fa),
            match r {
                Ok(()) => true,
                Err(e) => e == MMError::MemoryNotEnough || e == MMError::PageError(
                    PageError::PageAlreadyAlloc,
                ),
            },
    {
        let sub = self.vpn_range;
        self.check_range(page_table, fa, sub)
    }

    /// Install the page-table entry of one page: the identity entry for an
    /// `Identical` region, and nothing for a `Framed` one (whose entries are
    /// installed when frames are committed).
    fn map_one(&mut self, page_table: &mut PageTable, fa: &mut FrameAllocator, vpn: VirtPageNum)
        -> (r: MMResult<()>)
        requires
            old(self).wf(),
            old(page_table).wf(),
            old(fa).wf(),
            old(page_table).frames_ok(*old(fa)),
        ensures
            *final(self) == *old(self),
            final(page_table).wf(),
            final(fa).wf(),
            final(fa).same_pool(*old(fa)),
            final(page_table).frames_ok(*final(fa)),
            final(page_table).root_ppn == old(page_table).root_ppn,
            final(page_table).dir1.spec_len() >= old(page_table).dir1.spec_len(),
            final(page_table).dir0.spec_len() >= old(page_table).dir0.spec_len(),
            old(self).map_type == MapType::Framed ==> r.is_ok() && *final(page_table) == *old(page_table) && *final(fa) == *old(fa),
            old(self).map_type == MapType::Identical ==> {
                &&& r.is_ok() == (!old(page_table).mapping().contains_key(vpn.0) && old(fa).free_count() >= old(page_table).dirs_missing(vpn.0))
                &&& r.is_ok() ==> {
                    &&& final(page_table).mapping() == old(page_table).mapping().insert(
                        vpn.0,
                        PageTableEntry {
                            ppn: vpn.0,
                            flags: old(self).map_permission.bits | PTE_V,
                        },
                    )
                    &&& forall|k: u64|
                        #[trigger] old(page_table).dir1@.contains_key(k) ==> final(page_table).dir1@.contains_key(k) && final(page_table).dir1@[k] == old(page_table).dir1@[k]
                    &&& forall|k: u64|
                        #[trigger] old(page_table).dir0@.contains_key(k) ==> final(page_table).dir0@.contains_key(k) && final(page_table).dir0@[k] == old(page_table).dir0@[k]
                    &&& forall|k: u64|
                        final(page_table).dir1@.contains_key(k) && !old(page_table).dir1@.contains_key(k) ==> old(fa).is_free(final(page_table).dir1@[k])
                    &&& forall|k: u64|
                        final(page_table).dir0@.contains_key(k) && !old(page_table).dir0@.contains_key(k) ==> old(fa).is_free(final(page_table).dir0@[k])
                    &&& forall|q: u64| old(fa).allocated(q) ==> final(fa).allocated(q)
                    &&& final(fa).free_count() == old(fa).free_count() - (final(page_table).dir1.spec_len() - old(page_table).dir1.spec_len()) - (final(page_table).dir0.spec_len() - old(page_table).dir0.spec_len())
                    &&& final(fa).free_count() >= old(fa).free_count() - 2
                }
                &&& r.is_err() ==> *final(page_table) == *old(page_table) && *final(fa) == *old(fa)
                &&& match r {
                    Ok(()) => true,
                    Err(e) => (e == MMError::PageError(PageError::PageAlreadyAlloc) <==> old(page_table).mapping().contains_key(vpn.0)) && (e == MMError::MemoryNotEnough <==> !old(page_table).mapping().contains_key(vpn.0) && old(fa).free_count() < old(page_table).dirs_missing(vpn.0)),
                }
            },
    {
        match self.map_type {
            MapType::Identical => {
                let bits = self.map_permission.get_bits();
                page_table.map(fa, vpn.0, vpn.0, bits)
            },
            MapType::Framed => Ok(()),
        }
    }

    /// Drop one page: give up the owned frame (if any) and clear the
    /// page-table entry, treating an already-absent entry as success.
    fn unmap_one(&mut self, page_table: &mut PageTable, fa: &mut FrameAllocator, vpn: VirtPageNum)
        -> (r: MMResult<()>)
        requires
            old(self).wf(),
            old(page_table).wf(),
            old(fa).wf(),
            old(self).frames_ok(*old(fa)),
        ensures
            r.is_ok(),
            final(self).wf(),
            final(page_table).wf(),
            final(fa).wf(),
            final(fa).same_pool(*old(fa)),
            final(self).frames_ok(*final(fa)),
            final(self).vpn_range == old(self).vpn_range,
            final(self).map_type == old(self).map_type,
            final(self).map_permission == old(self).map_permission,
            final(page_table).root_ppn == old(page_table).root_ppn,
            final(page_table).dir1@ == old(page_table).dir1@,
            final(page_table).dir0@ == old(page_table).dir0@,
            final(page_table).dir1.spec_len() == old(page_table).dir1.spec_len(),
            final(page_table).dir0.spec_len() == old(page_table).dir0.spec_len(),
            final(self).frames() == old(self).frames().remove(vpn.0),
            final(self).data_frames.spec_len() == old(self).data_frames.spec_len() - (if old(self).frames().contains_key(vpn.0) {
                1int
            } else {
                0int
            }),
            final(page_table).mapping() == old(page_table).mapping().remove(vpn.0),
            old(self).frames().contains_key(vpn.0) ==> {
                let f = old(self).frames()[vpn.0];
                &&& forall|q: u64| final(fa).is_free(q) == (old(fa).is_free(q) || q == f)
                &&& forall|q: u64| q != f ==> final(fa).allocated(q) == old(fa).allocated(q)
                &&& !final(fa).allocated(f)
                &&& final(fa).free_count() == old(fa).free_count() + 1
            },
            !old(self).frames().contains_key(vpn.0) ==> *final(fa) == *old(fa)
                && final(self).data_frames.spec_len() == old(self).data_frames.spec_len(),
    {
        if self.map_type == MapType::Framed {
            match self.data_frames.remove(vpn.0) {
                Some(f) => {
                    proof {
                        assert(old(self).frames().contains_key(vpn.0));
                        assert(f == old(self).frames()[vpn.0]);
                        assert(old(fa).allocated(f));
                    }
                    let ok = fa.frame_dealloc(f);
                    proof {
                        assert(ok);
                    }
                },
                None => {
                    proof {
                        assert(self.frames() =~= old(self).frames().remove(vpn.0));
                    }
                },
            }
        } else {
            proof {
                assert(!old(self).frames().contains_key(vpn.0));
                assert(self.frames() =~= old(self).frames().remove(vpn.0));
            }
        }
        let r = match page_table.unmap(vpn.0) {
            Ok(()) => Ok(()),
            Err(MMError::PageError(PageError::DirPageInvalid)) => {
                proof {
                    let v0 = vpn.0;
                    assert((v0 >> 9) >> 9 == v0 >> 18) by (bit_vector);
                    assert(!old(page_table).mapping().contains_key(vpn.0));
                    assert(page_table.mapping() =~= old(page_table).mapping().remove(vpn.0));
                }
                Ok(())
            },
            Err(MMError::PageError(PageError::PageInvalid)) => {
                proof {
                    assert(page_table.mapping() =~= old(page_table).mapping().remove(vpn.0));
                }
                Ok(())
            },
            Err(e) => {
                proof {
                    assert(false);
                }
                Err(e)
            },
        };
        r
    }

    /// Install the whole region's mappings (identity regions materialize
    /// every page; framed regions install nothing here).  If one page cannot
    /// be installed, the pages already installed are taken back out, so a
    /// failure leaves the table's entries as they were.
    #[verifier::rlimit(100)]
    #[verifier::spinoff_prover]
    pub fn map(&mut self, page_table: &mut PageTable, fa: &mut FrameAllocator) -> (r: MMResult<()>)
        requires
            old(self).wf(),
            old(page_table).wf(),
            old(fa).wf(),
            old(page_table).frames_ok(*old(fa)),
        ensures
            *final(self) == *old(self),
            final(page_table).wf(),
            final(fa).wf(),
            final(fa).same_pool(*old(fa)),
            final(page_table).frames_ok(*final(fa)),
            final(page_table).root_ppn == old(page_table).root_ppn,
            final(page_table).dir1.spec_len() >= old(page_table).dir1.spec_len(),
            final(page_table).dir0.spec_len() >= old(page_table).dir0.spec_len(),
            old(self).map_type == MapType::Framed ==> r.is_ok() && *final(page_table) == *old(page_table) && *final(fa) == *old(fa),
            forall|k: u64|
                #[trigger] old(page_table).dir1@.contains_key(k) ==> final(page_table).dir1@.contains_key(k) && final(page_table).dir1@[k] == old(page_table).dir1@[k],
            forall|k: u64|
                #[trigger] old(page_table).dir0@.contains_key(k) ==> final(page_table).dir0@.contains_key(k) && final(page_table).dir0@[k] == old(page_table).dir0@[k],
            forall|k: u64|
                final(page_table).dir1@.contains_key(k) && !old(page_table).dir1@.contains_key(k)
                    ==> old(fa).is_free(final(page_table).dir1@[k]),
            forall|k: u64|
                final(page_table).dir0@.contains_key(k) && !old(page_table).dir0@.contains_key(k)
                    ==> old(fa).is_free(final(page_table).dir0@[k]),
            forall|q: u64| old(fa).allocated(q) ==> final(fa).allocated(q),
            final(page_table).dir1.spec_len() >= old(page_table).dir1.spec_len(),
            final(page_table).dir0.spec_len() >= old(page_table).dir0.spec_len(),
            final(fa).free_count() == old(fa).free_count() - (final(page_table).dir1.spec_len()
                - old(page_table).dir1.spec_len()) - (final(page_table).dir0.spec_len() - old(page_table).dir0.spec_len()),
            old(self).map_type == MapType::Identical && r.is_ok() ==> {
                &&& forall|w: u64|
                    final(page_table).mapping().contains_key(w) == (old(page_table).mapping().contains_key(w) || old(self).vpn_range.has(w))
                &&& forall|w: u64|
                    #[trigger] old(page_table).mapping().contains_key(w) ==> !old(self).vpn_range.has(w) && final(page_table).mapping()[w] == old(page_table).mapping()[w]
                &&& forall|w: u64|
                    old(self).vpn_range.has(w) ==> final(page_table).mapping()[w]
                        == (PageTableEntry {
                        ppn: w,
                        flags: old(self).map_permission.bits | PTE_V,
                    })
            },
            r.is_err() ==> final(page_table).mapping() == old(page_table).mapping(),
            (forall|w: u64| old(self).vpn_range.has(w) ==> !old(page_table).mapping().contains_key(
                w,
            )) && old(fa).free_count() >= 2 * old(self).vpn_range.len_spec() ==> r.is_ok(),
            final(fa).free_count() >= old(fa).free_count() - 2 * old(self).vpn_range.len_spec(),
            old(fa).free_count() >= 2 * old(self).vpn_range.len_spec() && r.is_err() ==> r
                == Err::<(), MMError>(MMError::PageError(PageError::PageAlreadyAlloc)) && (
            exists|w: u64|
                old(self).vpn_range.has(w) && #[trigger] old(page_table).mapping().contains_key(
                    w,
                )),
            (forall|w: u64|
                old(self).vpn_range.has(w) ==> !old(page_table).mapping().contains_key(w))
                && r.is_err() ==> r == Err::<(), MMError>(MMError::MemoryNotEnough),
            match r {
                Ok(()) => true,
                Err(e) => e == MMError::MemoryNotEnough || e == MMError::PageError(
                    PageError::PageAlreadyAlloc,
                ),
            },
    {
        match self.map_type {
            MapType::Framed => Ok(()),
            MapType::Identical => {
                let ghost self0 = *self;
                let ghost pt0 = *page_table;
                let ghost fa0 = *fa;
                let range = self.vpn_range;
                let mut v = range.get_start();
                let end = range.get_end();
                while v.0 < end.0
                    invariant
                        self0 == *old(self),
                        pt0 == *old(page_table),
                        fa0 == *old(fa),
                        *self == self0,
                        self0.wf(),
                        pt0.wf(),
                        fa0.wf(),
                        pt0.frames_ok(fa0),
                        self.map_type == MapType::Identical,
                        range == self0.vpn_range,
                        range.start.0 <= v.0 <= range.end.0,
                        end == range.end,
                        page_table.wf(),
                        fa.wf(),
                        fa.same_pool(fa0),
                        page_table.frames_ok(*fa),
                        page_table.root_ppn == pt0.root_ppn,
                        forall|k: u64|
                            #[trigger] pt0.dir1@.contains_key(k) ==> page_table.dir1@.contains_key(
                                k,
                            ) && page_table.dir1@[k] == pt0.dir1@[k],
                        forall|k: u64|
                            #[trigger] pt0.dir0@.contains_key(k) ==> page_table.dir0@.contains_key(
                                k,
                            ) && page_table.dir0@[k] == pt0.dir0@[k],
                        forall|k: u64|
                            page_table.dir1@.contains_key(k) && !pt0.dir1@.contains_key(k)
                                ==> fa0.is_free(page_table.dir1@[k]),
                        forall|k: u64|
                            page_table.dir0@.contains_key(k) && !pt0.dir0@.contains_key(k)
                                ==> fa0.is_free(page_table.dir0@[k]),
                        forall|q: u64| fa0.allocated(q) ==> fa.allocated(q),
                        page_table.dir1.spec_len() >= pt0.dir1.spec_len(),
                        page_table.dir0.spec_len() >= pt0.dir0.spec_len(),
                        fa.free_count() == fa0.free_count() - (page_table.dir1.spec_len()
                            - pt0.dir1.spec_len()) - (page_table.dir0.spec_len()
                            - pt0.dir0.spec_len()),
                        forall|w: u64|
                            (#[trigger] page_table.mapping().contains_key(w)) == (
                            pt0.mapping().contains_key(w) || (range.start.0 <= w < v.0)),
                        forall|w: u64|
                            #[trigger] pt0.mapping().contains_key(w) ==> !(range.start.0 <= w
                                < v.0) && page_table.mapping()[w] == pt0.mapping()[w],
                        forall|w: u64|
                            range.start.0 <= w < v.0 ==> (#[trigger] page_table.mapping()[w])
                                == (PageTableEntry {
                                ppn: w,
                                flags: self0.map_permission.bits | PTE_V,
                            }),
                        fa0.free_count() >= 2 * range.len_spec() ==> fa.free_count() >= 2 * (
                        range.end.0 - v.0),
                        fa.free_count() >= fa0.free_count() - 2 * (v.0 - range.start.0),
                    decreases end.0 - v.0,
                {
                    let ghost fa_pre = *fa;
                    let ghost pt_pre = *page_table;
                    match self.map_one(page_table, fa, v) {
                        Ok(()) => {
                            proof {
                                FrameAllocator::lemma_free_shrinks(fa0, fa_pre);
                            }
                        },
                        Err(e) => {
                            proof {
                                FrameAllocator::lemma_free_shrinks(fa0, fa_pre);
                                assert(*page_table == pt_pre);
                                if (forall|w: u64|
                                    self0.vpn_range.has(w) ==> !pt0.mapping().contains_key(w))
                                    && fa0.free_count() >= 2 * self0.vpn_range.len_spec() {
                                    assert(self0.vpn_range.has(v.0));
                                    assert(!pt0.mapping().contains_key(v.0));
                                    assert(!pt_pre.mapping().contains_key(v.0));
                                    assert(fa_pre.free_count() >= 2 * (range.end.0 - v.0));
                                    assert(pt_pre.dirs_missing(v.0) <= 2);
                                    assert(false);
                                }
                                if fa0.free_count() >= 2 * self0.vpn_range.len_spec() {
                                    assert(fa_pre.free_count() >= 2 * (range.end.0 - v.0));
                                    assert(pt_pre.dirs_missing(v.0) <= 2);
                                    assert(e != MMError::MemoryNotEnough);
                                    assert(pt_pre.mapping().contains_key(v.0));
                                    assert(pt0.mapping().contains_key(v.0));
                                    assert(self0.vpn_range.has(v.0));
                                }
                                if forall|w: u64|
                                    self0.vpn_range.has(w) ==> !pt0.mapping().contains_key(w) {
                                    assert(self0.vpn_range.has(v.0));
                                    assert(!pt0.mapping().contains_key(v.0));
                                    assert(!pt_pre.mapping().contains_key(v.0));
                                    assert(e == MMError::MemoryNotEnough);
                                }
                            }
                            let mut w = range.get_start();
                            proof {
                                assert forall|u: u64|
                                    page_table.mapping().contains_key(u) == (
                                    pt0.mapping().contains_key(u) || (w.0 <= u < v.0)) by {
                                    assert(pt_pre.mapping().contains_key(u) == (
                                    pt0.mapping().contains_key(u) || (range.start.0 <= u < v.0)));
                                };
                            }
                            while w.0 < v.0
                                invariant
                                    pt0.wf(),
                                    page_table.wf(),
                                    range.start.0 <= w.0 <= v.0 <= range.end.0,
                                    page_table.root_ppn == pt0.root_ppn,
                                    page_table.dir1@ == pt_pre.dir1@,
                                    page_table.dir0@ == pt_pre.dir0@,
                                    page_table.dir1.spec_len() == pt_pre.dir1.spec_len(),
                                    page_table.dir0.spec_len() == pt_pre.dir0.spec_len(),
                                    forall|u: u64|
                                        (#[trigger] page_table.mapping().contains_key(u)) == (
                                        pt0.mapping().contains_key(u) || (w.0 <= u < v.0)),
                                    forall|u: u64|
                                        #[trigger] pt0.mapping().contains_key(u) ==> !(
                                        range.start.0 <= u < v.0) && page_table.mapping()[u]
                                            == pt0.mapping()[u],
                                decreases v.0 - w.0,
                            {
                                proof {
                                    let w0 = w.0;
                                    assert((w0 >> 9) >> 9 == w0 >> 18) by (bit_vector);
                                    assert(page_table.mapping().contains_key(w.0));
                                    assert(page_table.dirs_present(w.0));
                                }
                                match page_table.unmap(w.0) {
                                    Ok(()) => {},
                                    Err(_) => {
                                        proof {
                                            assert(false);
                                        }
                                    },
                                }
                                w.step();
                            }
                            proof {
                                assert(page_table.mapping() =~= pt0.mapping());
                            }
                            return Err(e);
                        },
                    }
                    v.step();
                }
                proof {
                    assert(v.0 == range.end.0);
                    assert forall|w: u64|
                        page_table.mapping().contains_key(w) == (pt0.mapping().contains_key(w)
                            || self0.vpn_range.has(w)) by {
                        assert((#[trigger] page_table.mapping().contains_key(w)) == (
                        pt0.mapping().contains_key(w) || (range.start.0 <= w < v.0)));
                    };
                }
                Ok(())
            },
        }
    }

    /// Take the whole region out of the page table, giving every owned frame
    /// back to the pool.  A page that was never committed is not an error.
    #[verifier::rlimit(100)]
    #[verifier::spinoff_prover]
    pub fn unmap(&mut self, page_table: &mut PageTable, fa: &mut FrameAllocator) -> (r: MMResult<
        (),
    >)
        requires
            old(self).wf(),
            old(page_table).wf(),
            old(fa).wf(),
            old(self).frames_ok(*old(fa)),
        ensures
            r.is_ok(),
            final(self).wf(),
            final(page_table).wf(),
            final(fa).wf(),
            final(fa).same_pool(*old(fa)),
            final(self).vpn_range == old(self).vpn_range,
            final(self).map_type == old(self).map_type,
            final(self).map_permission == old(self).map_permission,
            final(self).frames() == Map::<u64, u64>::empty(),
            final(self).data_frames.spec_len() == 0,
            final(page_table).root_ppn == old(page_table).root_ppn,
            final(page_table).dir1@ == old(page_table).dir1@,
            final(page_table).dir0@ == old(page_table).dir0@,
            final(page_table).dir1.spec_len() == old(page_table).dir1.spec_len(),
            final(page_table).dir0.spec_len() == old(page_table).dir0.spec_len(),
            forall|w: u64|
                old(self).vpn_range.has(w) ==> !final(page_table).mapping().contains_key(w),
            forall|w: u64|
                !old(self).vpn_range.has(w) ==> final(page_table).mapping().contains_key(w) == old(page_table).mapping().contains_key(w) && (old(page_table).mapping().contains_key(w)
                    ==> final(page_table).mapping()[w] == old(page_table).mapping()[w]),
            forall|q: u64|
                final(fa).is_free(q) == (old(fa).is_free(q) || old(self).owns_frame(q)),
            forall|q: u64|
                !old(self).owns_frame(q) ==> final(fa).allocated(q) == old(fa).allocated(q),
            final(fa).free_count() == old(fa).free_count() + old(self).data_frames.spec_len(),
    {
        let ghost self0 = *self;
        let ghost pt0 = *page_table;
        let ghost fa0 = *fa;
        let range = self.vpn_range;
        let mut v = range.get_start();
        let end = range.get_end();
        while v.0 < end.0
            invariant
                self0 == *old(self),
                pt0 == *old(page_table),
                fa0 == *old(fa),
                self0.wf(),
                pt0.wf(),
                fa0.wf(),
                self0.frames_ok(fa0),
                self.wf(),
                page_table.wf(),
                fa.wf(),
                fa.same_pool(fa0),
                self.frames_ok(*fa),
                self.vpn_range == self0.vpn_range,
                self.map_type == self0.map_type,
                self.map_permission == self0.map_permission,
                range == self0.vpn_range,
                range.start.0 <= v.0 <= range.end.0,
                end == range.end,
                page_table.root_ppn == pt0.root_ppn,
                page_table.dir1@ == pt0.dir1@,
                page_table.dir0@ == pt0.dir0@,
                page_table.dir1.spec_len() == pt0.dir1.spec_len(),
                page_table.dir0.spec_len() == pt0.dir0.spec_len(),
                forall|k: u64|
                    self.frames().contains_key(k) == (self0.frames().contains_key(k) && k >= v.0),
                forall|k: u64|
                    #[trigger] self.frames().contains_key(k) ==> self.frames()[k]
                        == self0.frames()[k],
                forall|w: u64|
                    page_table.mapping().contains_key(w) == (pt0.mapping().contains_key(w) && !(
                    range.start.0 <= w < v.0)),
                forall|w: u64|
                    range.start.0 <= w < v.0 ==> !page_table.mapping().contains_key(w),
                forall|w: u64|
                    #[trigger] page_table.mapping().contains_key(w)
                        ==> page_table.mapping()[w] == pt0.mapping()[w],
                forall|q: u64|
                    fa.is_free(q) == (fa0.is_free(q) || self0.owns_frame_below(v.0, q)),
                forall|q: u64|
                    !self0.owns_frame_below(v.0, q) ==> fa.allocated(q) == fa0.allocated(q),
                fa.free_count() == fa0.free_count() + (self0.data_frames.spec_len()
                    - self.data_frames.spec_len()),
            decreases end.0 - v.0,
        {
            let ghost fa_pre = *fa;
            let ghost self_pre = *self;
            match self.unmap_one(page_table, fa, v) {
                Ok(()) => {},
                Err(_) => {
                    proof {
                        assert(false);
                    }
                },
            }
            proof {
                assert forall|q: u64|
                    fa.is_free(q) == (fa0.is_free(q) || self0.owns_frame_below((v.0 + 1) as u64, q)) by {
                    if self_pre.frames().contains_key(v.0) && q == self_pre.frames()[v.0] {
                        assert(self0.frames().contains_key(v.0));
                        assert(self0.owns_frame_below((v.0 + 1) as u64, q));
                    }
                    if self0.owns_frame_below((v.0 + 1) as u64, q) && !self0.owns_frame_below(v.0, q) {
                        let k = choose|k: u64|
                            #[trigger] self0.frames().contains_key(k) && k < v.0 + 1
                                && self0.frames()[k] == q;
                        assert(k == v.0);
                        assert(self_pre.frames().contains_key(v.0));
                        assert(self_pre.frames()[v.0] == q);
                    }
                };
                assert forall|q: u64|
                    !self0.owns_frame_below((v.0 + 1) as u64, q) implies fa.allocated(q) == fa0.allocated(
                    q,
                ) by {
                    assert(!self0.owns_frame_below(v.0, q));
                    if self_pre.frames().contains_key(v.0) {
                        assert(self0.frames().contains_key(v.0) && self0.frames()[v.0]
                            == self_pre.frames()[v.0]);
                        assert(q != self_pre.frames()[v.0]);
                    }
                };
                assert forall|k: u64|
                    self.frames().contains_key(k) == (self0.frames().contains_key(k) && k >= v.0
                        + 1) by {
                    if self.frames().contains_key(k) {
                        assert(self_pre.frames().contains_key(k));
                        assert(k != v.0);
                    }
                    if self0.frames().contains_key(k) && k >= v.0 + 1 {
                        assert(self_pre.frames().contains_key(k));
                    }
                };
            }
            v.step();
        }
        proof {
            assert forall|k: u64| !self.frames().contains_key(k) by {
                if self.frames().contains_key(k) {
                    assert(self0.frames().contains_key(k));
                    assert(self0.vpn_range.has(k));
                }
            };
            assert(self.frames() =~= Map::<u64, u64>::empty());
            crate::keymap::lemma_map_of_len(self.data_frames.pairs@);
            assert(self.data_frames@.dom() =~= Set::<u64>::empty());
            assert(v.0 == range.end.0);
            assert forall|w: u64|
                self0.vpn_range.has(w) implies !page_table.mapping().contains_key(w) by {
                if page_table.mapping().contains_key(w) {
                    assert(pt0.mapping().contains_key(w) && !(range.start.0 <= w < v.0));
                }
            };
            assert forall|q: u64|
                fa.is_free(q) == (fa0.is_free(q) || self0.owns_frame(q)) by {
                if self0.owns_frame(q) {
                    let k = choose|k: u64|
                        #[trigger] self0.frames().contains_key(k) && self0.frames()[k] == q;
                    assert(self0.vpn_range.has(k));
                    assert(self0.owns_frame_below(v.0, q));
                }
                if self0.owns_frame_below(v.0, q) {
                    let k = choose|k: u64|
                        #[trigger] self0.frames().contains_key(k) && k < v.0 && self0.frames()[k]
                            == q;
                    assert(self0.owns_frame(q));
                }
            };
            assert forall|q: u64|
                !self0.owns_frame(q) implies fa.allocated(q) == fa0.allocated(q) by {
                if self0.owns_frame_below(v.0, q) {
                    let k = choose|k: u64|
                        #[trigger] self0.frames().contains_key(k) && k < v.0 && self0.frames()[k]
                            == q;
                    assert(self0.owns_frame(q));
                }
            };
        }
        Ok(())
    }

    /// Copy `data` into the region's backing frames through their physical
    /// byte view: the pages the data needs are committed first (from the
    /// region's start), then each page of bytes is written to its frame.
    /// Only for framed regions large enough to hold the data.
    #[verifier::rlimit(100)]
    #[verifier::spinoff_prover]
    pub fn copy_data(
        &mut self,
        page_table: &mut PageTable,
        fa: &mut FrameAllocator,
        mem: &mut PhysMemory,
        data: &[u8],
    ) -> (r: MMResult<()>)
        requires
            old(self).wf(),
            old(page_table).wf(),
            old(fa).wf(),
            old(mem).wf(),
            old(self).map_type == MapType::Framed,
            old(page_table).frames_ok(*old(fa)),
            old(self).frames_ok(*old(fa)),
            1 <= data@.len(),
            data@.len() + PAGE_BYTES <= usize::MAX,
            pages_of(data@.len() as int) <= old(self).vpn_range.len_spec(),
            forall|p: u64| old(fa).base <= p < old(fa).end ==> old(mem).holds(p),
        ensures
            final(self).wf(),
            final(page_table).wf(),
            final(fa).wf(),
            final(mem).wf(),
            final(fa).same_pool(*old(fa)),
            final(mem).same_extent(*old(mem)),
            final(mem).base == old(mem).base,
            forall|p: u64| final(mem).holds(p) == old(mem).holds(p),
            final(self).frames_ok(*final(fa)),
            final(page_table).frames_ok(*final(fa)),
            final(self).vpn_range == old(self).vpn_range,
            final(self).map_type == old(self).map_type,
            final(self).map_permission == old(self).map_permission,
            final(page_table).root_ppn == old(page_table).root_ppn,
            forall|v: u64|
                #[trigger] old(self).frames().contains_key(v) ==> final(self).frames().contains_key(v) && final(self).frames()[v] == old(self).frames()[v],
            forall|v: u64|
                final(self).frames().contains_key(v) ==> old(self).frames().contains_key(v) || (
                old(self).vpn_range.start.0 <= v < old(self).vpn_range.start.0 + pages_of(
                    data@.len() as int,
                )),
            forall|v: u64|
                #[trigger] final(self).frames().contains_key(v) && !old(self).frames().contains_key(v) ==> {
                    &&& old(fa).is_free(final(self).frames()[v])
                    &&& final(page_table).mapping().contains_key(v)
                    &&& final(page_table).mapping()[v] == (PageTableEntry {
                        ppn: final(self).frames()[v],
                        flags: old(self).map_permission.bits | PTE_V,
                    })
                    &&& !final(page_table).owns(final(self).frames()[v])
                },
            forall|v: u64|
                #[trigger] old(page_table).mapping().contains_key(v) ==> final(page_table).mapping().contains_key(v) && final(page_table).mapping()[v] == old(page_table).mapping()[v],
            forall|v: u64|
                final(page_table).mapping().contains_key(v) == (old(page_table).mapping().contains_key(v) || (final(self).frames().contains_key(v) && !old(self).frames().contains_key(v))),
            forall|k: u64|
                #[trigger] old(page_table).dir1@.contains_key(k) ==> final(page_table).dir1@.contains_key(k) && final(page_table).dir1@[k] == old(page_table).dir1@[k],
            forall|k: u64|
                #[trigger] old(page_table).dir0@.contains_key(k) ==> final(page_table).dir0@.contains_key(k) && final(page_table).dir0@[k] == old(page_table).dir0@[k],
            forall|k: u64|
                final(page_table).dir1@.contains_key(k) && !old(page_table).dir1@.contains_key(k)
                    ==> old(fa).is_free(final(page_table).dir1@[k]),
            forall|k: u64|
                final(page_table).dir0@.contains_key(k) && !old(page_table).dir0@.contains_key(k)
                    ==> old(fa).is_free(final(page_table).dir0@[k]),
            forall|q: u64| old(fa).allocated(q) ==> final(fa).allocated(q),
            final(page_table).dir1.spec_len() >= old(page_table).dir1.spec_len(),
            final(page_table).dir0.spec_len() >= old(page_table).dir0.spec_len(),
            final(fa).free_count() == old(fa).free_count() - (final(self).data_frames.spec_len()
                - old(self).data_frames.spec_len()) - (final(page_table).dir1.spec_len() - old(page_table).dir1.spec_len()) - (final(page_table).dir0.spec_len() - old(page_table).dir0.spec_len()),
            (forall|v: u64|
                old(self).vpn_range.start.0 <= v < old(self).vpn_range.start.0 + pages_of(
                    data@.len() as int,
                ) && !old(self).frames().contains_key(v) ==> !old(page_table).mapping().contains_key(v)) && old(fa).free_count() >= 3 * pages_of(
                data@.len() as int,
            ) ==> r.is_ok(),
            r.is_ok() ==> {
                let s = old(self).vpn_range.start.0;
                let n = pages_of(data@.len() as int);
                &&& forall|v: u64| s <= v < s + n ==> final(self).frames().contains_key(v)
                &&& forall|i: int, j: int|
                    0 <= i < n && 0 <= j < PAGE_BYTES && i * PAGE_BYTES + j < data@.len() ==> (
                    #[trigger] final(mem).page(final(self).frames()[(s + i) as u64])[j]) == data@[
                        i * PAGE_BYTES + j]
                &&& forall|p: u64|
                    old(mem).holds(p) && (forall|i: int|
                        0 <= i < n ==> p != (#[trigger] final(self).frames()[(s + i) as u64]))
                        ==> final(mem).page(p) == old(mem).page(p)
            },
            r.is_err() ==> *final(mem) == *old(mem),
            match r {
                Ok(()) => true,
                Err(e) => e == MMError::MemoryNotEnough || e == MMError::PageError(
                    PageError::PageAlreadyAlloc,
                ),
            },
    {
        let len = data.len();
        let pages: usize = (len + PAGE_BYTES - 1) / PAGE_BYTES;
        let start_vpn = self.vpn_range.get_start();
        proof {
            assert(start_vpn.0 + pages <= self.vpn_range.end.0);
        }
        let sub = VPNRange::new_by_len(start_vpn, pages as u64);
        match self.check_range(page_table, fa, sub) {
            Ok(()) => {},
            Err(e) => {
                proof {
                    assert forall|v: u64| self.frames().contains_key(v) implies old(self).frames().contains_key(v) || (old(self).vpn_range.start.0 <= v < old(self).vpn_range.start.0 + pages_of(data@.len() as int)) by {
                        if !old(self).frames().contains_key(v) {
                            assert(old(self).vpn_range.has(v) && sub.has(v));
                            assert(v < sub.end.0);
                        }
                    };
                }
                return Err(e);
            },
        }
        let ghost self_f = *self;
        let ghost fa_f = *fa;
        let ghost mem0 = *mem;
        proof {
            assert forall|v: u64| start_vpn.0 <= v < start_vpn.0 + pages implies self_f.frames().contains_key(
                v,
            ) by {
                assert(old(self).vpn_range.has(v) && sub.has(v));
            };
        }
        let mut i: usize = 0;
        while i < pages
            invariant
                self_f == *self,
                fa_f == *fa,
                mem0.wf(),
                self_f.wf(),
                fa_f.wf(),
                self_f.frames_ok(fa_f),
                fa_f.same_pool(*old(fa)),
                mem.wf(),
                mem.base == mem0.base,
                mem.pages@.len() == mem0.pages@.len(),
                i <= pages,
                len == data@.len(),
                1 <= len,
                len + PAGE_BYTES <= usize::MAX,
                pages == pages_of(len as int),
                start_vpn.0 + pages <= u64::MAX,
                forall|p: u64| old(fa).base <= p < old(fa).end ==> mem0.holds(p),
                forall|v: u64|
                    start_vpn.0 <= v < start_vpn.0 + pages ==> self_f.frames().contains_key(v),
                forall|ii: int, j: int|
                    0 <= ii < i && 0 <= j < PAGE_BYTES && ii * PAGE_BYTES + j < len ==> (
                    #[trigger] mem.page(self_f.frames()[(start_vpn.0 + ii) as u64])[j]) == data@[
                        ii * PAGE_BYTES + j],
                forall|p: u64|
                    mem0.holds(p) && (forall|ii: int|
                        0 <= ii < i ==> p != (#[trigger] self_f.frames()[(start_vpn.0 + ii) as u64]))
                        ==> mem.page(p) == mem0.page(p),
            decreases pages - i,
        {
            let v = VirtPageNum(start_vpn.0 + i as u64);
            let src_start = i * PAGE_BYTES;
            proof {
                assert(i * PAGE_BYTES + PAGE_BYTES <= len + PAGE_BYTES) by (nonlinear_arith)
                    requires
                        i < pages,
                        pages == (len + PAGE_BYTES - 1) / (PAGE_BYTES as int),
                        PAGE_BYTES == 4096,
                        len >= 1,
                ;
            }
            let src_end = if src_start + PAGE_BYTES <= len {
                src_start + PAGE_BYTES
            } else {
                len
            };
            proof {
                assert(src_start < len) by (nonlinear_arith)
                    requires
                        i < pages,
                        src_start == i * PAGE_BYTES,
                        pages == (len + PAGE_BYTES - 1) / (PAGE_BYTES as int),
                        PAGE_BYTES == 4096,
                        len >= 1,
                ;
            }
            proof {
                assert(start_vpn.0 <= v.0 < start_vpn.0 + pages);
                assert(self_f.frames().contains_key(v.0));
            }
            let f = match self.data_frames.get(v.0) {
                Some(f) => f,
                None => {
                    proof {
                        assert(false);
                    }
                    0
                },
            };
            proof {
                assert(fa_f.allocated(f));
                assert(mem0.holds(f));
            }
            let ghost mem_pre = *mem;
            mem.write_range(f, 0, data, src_start, src_end);
            proof {
                assert forall|ii: int, j: int|
                    0 <= ii < i + 1 && 0 <= j < PAGE_BYTES && ii * PAGE_BYTES + j < len implies (
                #[trigger] mem.page(self_f.frames()[(start_vpn.0 + ii) as u64])[j]) == data@[ii
                    * PAGE_BYTES + j] by {
                    let fp = self_f.frames()[(start_vpn.0 + ii) as u64];
                    if ii < i {
                        assert(self_f.frames().contains_key((start_vpn.0 + ii) as u64));
                        assert(self_f.frames().contains_key(v.0));
                        if fp == f {
                            assert((start_vpn.0 + ii) as u64 == v.0);
                        }
                        assert(fp != f);
                        assert(mem0.holds(fp));
                        assert(mem.page(fp) == mem_pre.page(fp));
                    } else {
                        assert(fp == f);
                        assert(src_start + (j - 0) == ii * PAGE_BYTES + j);
                    }
                };
                assert forall|p: u64|
                    mem0.holds(p) && (forall|ii: int|
                        0 <= ii < i + 1 ==> p != (#[trigger] self_f.frames()[(start_vpn.0
                            + ii) as u64])) implies mem.page(p) == mem0.page(p) by {
                    assert(p != f);
                    assert(mem_pre.page(p) == mem0.page(p));
                };
            }
            i = i + 1;
        }
        proof {
            assert(*self == self_f);
            assert(mem0 == *old(mem));
            assert forall|v: u64| #[trigger] old(self).frames().contains_key(v) implies self.frames().contains_key(v)
                && self.frames()[v] == old(self).frames()[v] by {};
            assert(len == data@.len());
            assert(pages_of(len as int) == pages_of(data@.len() as int));
            assert(sub.end.0 == old(self).vpn_range.start.0 + pages);
            assert(pages == pages_of(data@.len() as int));
            assert forall|v: u64| self.frames().contains_key(v) implies old(self).frames().contains_key(v) || (old(self).vpn_range.start.0 <= v < old(self).vpn_range.start.0 + pages_of(data@.len() as int)) by {
                if !old(self).frames().contains_key(v) {
                    assert(old(self).vpn_range.has(v) && sub.has(v));
                    assert(v < sub.end.0);
                }
            };
            assert forall|i2: int, j: int|
                0 <= i2 < pages_of(len as int) && 0 <= j < PAGE_BYTES && i2 * PAGE_BYTES + j
                    < len implies (#[trigger] mem.page(
                self.frames()[(old(self).vpn_range.start.0 + i2) as u64],
            )[j]) == data@[i2 * PAGE_BYTES + j] by {
                assert(mem.page(self_f.frames()[(start_vpn.0 + i2) as u64])[j] == data@[i2
                    * PAGE_BYTES + j]);
            };
        }
        Ok(())
    }

    /// Whether the region owns frame `p` at a page below `hi`.
    pub open spec fn owns_frame_below(self, hi: u64, p: u64) -> bool {
        exists|k: u64|
            #[trigger] self.frames().contains_key(k) && k < hi && self.frames()[k] == p
    }

    /// Whether the region owns frame `p` at a page in `[lo, hi)`.
    pub open spec fn owns_frame_in(self, lo: u64, hi: u64, p: u64) -> bool {
        exists|k: u64|
            #[trigger] self.frames().contains_key(k) && lo <= k < hi && self.frames()[k] == p
    }

    /// Shrink the region to `[start, to)`: the trailing pages are unmapped
    /// and their frames given back, and the recorded extent changes together
    /// with the table, never apart from it.
    #[verifier::rlimit(100)]
    #[verifier::spinoff_prover]
    pub fn narrow(&mut self, page_table: &mut PageTable, fa: &mut FrameAllocator, to: VirtPageNum)
        -> (r: MMResult<()>)
        requires
            old(self).wf(),
            old(page_table).wf(),
            old(fa).wf(),
            old(self).frames_ok(*old(fa)),
            old(self).vpn_range.start.0 <= to.0 <= old(self).vpn_range.end.0,
        ensures
            r.is_ok(),
            final(self).wf(),
            final(page_table).wf(),
            final(fa).wf(),
            final(fa).same_pool(*old(fa)),
            final(self).frames_ok(*final(fa)),
            final(self).vpn_range == (VPNRange { start: old(self).vpn_range.start, end: to }),
            final(self).map_type == old(self).map_type,
            final(self).map_permission == old(self).map_permission,
            final(page_table).root_ppn == old(page_table).root_ppn,
            final(page_table).dir1@ == old(page_table).dir1@,
            final(page_table).dir0@ == old(page_table).dir0@,
            final(page_table).dir1.spec_len() == old(page_table).dir1.spec_len(),
            final(page_table).dir0.spec_len() == old(page_table).dir0.spec_len(),
            forall|k: u64|
                final(self).frames().contains_key(k) == (old(self).frames().contains_key(k) && k
                    < to.0),
            forall|k: u64|
                #[trigger] final(self).frames().contains_key(k) ==> final(self).frames()[k] == old(self).frames()[k],
            forall|w: u64|
                to.0 <= w < old(self).vpn_range.end.0 ==> !final(page_table).mapping().contains_key(w),
            forall|w: u64|
                !(to.0 <= w < old(self).vpn_range.end.0) ==> final(page_table).mapping().contains_key(w) == old(page_table).mapping().contains_key(w) && (old(page_table).mapping().contains_key(w) ==> final(page_table).mapping()[w] == old(page_table).mapping()[w]),
            forall|q: u64|
                final(fa).is_free(q) == (old(fa).is_free(q) || old(self).owns_frame_in(
                    to.0,
                    old(self).vpn_range.end.0,
                    q,
                )),
            forall|q: u64|
                !old(self).owns_frame_in(to.0, old(self).vpn_range.end.0, q) ==> final(fa).allocated(q) == old(fa).allocated(q),
            final(fa).free_count() == old(fa).free_count() + (old(self).data_frames.spec_len()
                - final(self).data_frames.spec_len()),
    {
        let ghost self0 = *self;
        let ghost pt0 = *page_table;
        let ghost fa0 = *fa;
        let range = self.vpn_range;
        let mut v = to;
        let end = range.get_end();
        while v.0 < end.0
            invariant
                self0 == *old(self),
                pt0 == *old(page_table),
                fa0 == *old(fa),
                self0.wf(),
                pt0.wf(),
                fa0.wf(),
                self0.frames_ok(fa0),
                self.wf(),
                page_table.wf(),
                fa.wf(),
                fa.same_pool(fa0),
                self.frames_ok(*fa),
                self.vpn_range == self0.vpn_range,
                self.map_type == self0.map_type,
                self.map_permission == self0.map_permission,
                range == self0.vpn_range,
                to.0 <= v.0 <= range.end.0,
                end == range.end,
                page_table.root_ppn == pt0.root_ppn,
                page_table.dir1@ == pt0.dir1@,
                page_table.dir0@ == pt0.dir0@,
                page_table.dir1.spec_len() == pt0.dir1.spec_len(),
                page_table.dir0.spec_len() == pt0.dir0.spec_len(),
                forall|k: u64|
                    self.frames().contains_key(k) == (self0.frames().contains_key(k) && !(to.0 <= k
                        < v.0)),
                forall|k: u64|
                    #[trigger] self.frames().contains_key(k) ==> self.frames()[k]
                        == self0.frames()[k],
                forall|w: u64|
                    (#[trigger] page_table.mapping().contains_key(w)) == (
                    pt0.mapping().contains_key(w) && !(to.0 <= w < v.0)),
                forall|w: u64|
                    #[trigger] page_table.mapping().contains_key(w) ==> page_table.mapping()[w]
                        == pt0.mapping()[w],
                forall|q: u64|
                    fa.is_free(q) == (fa0.is_free(q) || self0.owns_frame_in(to.0, v.0, q)),
                forall|q: u64|
                    !self0.owns_frame_in(to.0, v.0, q) ==> fa.allocated(q) == fa0.allocated(q),
                fa.free_count() == fa0.free_count() + (self0.data_frames.spec_len()
                    - self.data_frames.spec_len()),
            decreases end.0 - v.0,
        {
            let ghost fa_pre = *fa;
            let ghost self_pre = *self;
            match self.unmap_one(page_table, fa, v) {
                Ok(()) => {},
                Err(_) => {
                    proof {
                        assert(false);
                    }
                },
            }
            proof {
                assert forall|q: u64|
                    fa.is_free(q) == (fa0.is_free(q) || self0.owns_frame_in(
                        to.0,
                        (v.0 + 1) as u64,
                        q,
                    )) by {
                    if self_pre.frames().contains_key(v.0) && q == self_pre.frames()[v.0] {
                        assert(self0.frames().contains_key(v.0));
                        assert(self0.owns_frame_in(to.0, (v.0 + 1) as u64, q));
                    }
                    if self0.owns_frame_in(to.0, (v.0 + 1) as u64, q) && !self0.owns_frame_in(
                        to.0,
                        v.0,
                        q,
                    ) {
                        let k = choose|k: u64|
                            #[trigger] self0.frames().contains_key(k) && to.0 <= k < v.0 + 1
                                && self0.frames()[k] == q;
                        assert(k == v.0);
                        assert(self_pre.frames().contains_key(v.0));
                        assert(self_pre.frames()[v.0] == q);
                    }
                };
                assert forall|q: u64|
                    !self0.owns_frame_in(to.0, (v.0 + 1) as u64, q) implies fa.allocated(q)
                    == fa0.allocated(q) by {
                    assert(!self0.owns_frame_in(to.0, v.0, q));
                    if self_pre.frames().contains_key(v.0) {
                        assert(self0.frames().contains_key(v.0) && self0.frames()[v.0]
                            == self_pre.frames()[v.0]);
                        assert(q != self_pre.frames()[v.0]);
                    }
                };
                assert forall|k: u64|
                    self.frames().contains_key(k) == (self0.frames().contains_key(k) && !(to.0 <= k
                        < v.0 + 1)) by {
                    if self.frames().contains_key(k) {
                        assert(self_pre.frames().contains_key(k));
                        assert(k != v.0);
                    }
                    if self0.frames().contains_key(k) && !(to.0 <= k < v.0 + 1) {
                        assert(self_pre.frames().contains_key(k));
                    }
                };
            }
            v.step();
        }
        let ghost self_mid = *self;
        self.vpn_range = VPNRange { start: range.start, end: to };
        proof {
            assert(v.0 == range.end.0);
            assert(self.frames() == self_mid.frames());
            assert forall|k: u64| #[trigger] self.frames().contains_key(k) implies self.vpn_range.has(
                k,
            ) by {
                assert(self0.frames().contains_key(k));
                assert(self0.vpn_range.has(k));
                assert(!(to.0 <= k < v.0));
            };
            assert forall|k: u64|
                self.frames().contains_key(k) == (self0.frames().contains_key(k) && k < to.0) by {
                if self.frames().contains_key(k) {
                    assert(self0.frames().contains_key(k));
                    assert(self0.vpn_range.has(k));
                }
                if self0.frames().contains_key(k) && k < to.0 {
                    assert(self0.vpn_range.has(k));
                    assert(self_mid.frames().contains_key(k));
                }
            };
            assert forall|k: u64|
                #[trigger] self.frames().contains_key(k) implies fa.allocated(self.frames()[k]) by {
                assert(self_mid.frames().contains_key(k));
            };
        }
        Ok(())
    }

    /// Grow the region to `[start, to)`: an `Identical` region materializes
    /// the added pages at once (and a failure takes them back out, leaving
    /// extent and table as they were); a `Framed` region only records the
    /// larger extent, deferring frames to a later fill.
    #[verifier::rlimit(100)]
    #[verifier::spinoff_prover]
    pub fn expand(&mut self, page_table: &mut PageTable, fa: &mut FrameAllocator, to: VirtPageNum)
        -> (r: MMResult<()>)
        requires
            old(self).wf(),
            old(page_table).wf(),
            old(fa).wf(),
            old(page_table).frames_ok(*old(fa)),
            old(self).vpn_range.end.0 <= to.0,
        ensures
            final(self).wf(),
            final(page_table).wf(),
            final(fa).wf(),
            final(fa).same_pool(*old(fa)),
            final(page_table).frames_ok(*final(fa)),
            final(self).frames() == old(self).frames(),
            final(self).data_frames.spec_len() == old(self).data_frames.spec_len(),
            final(self).map_type == old(self).map_type,
            final(self).map_permission == old(self).map_permission,
            final(self).vpn_range == if r.is_ok() {
                VPNRange { start: old(self).vpn_range.start, end: to }
            } else {
                old(self).vpn_range
            },
            final(page_table).root_ppn == old(page_table).root_ppn,
            final(page_table).dir1.spec_len() >= old(page_table).dir1.spec_len(),
            final(page_table).dir0.spec_len() >= old(page_table).dir0.spec_len(),
            old(self).map_type == MapType::Framed ==> r.is_ok() && *final(page_table) == *old(page_table) && *final(fa) == *old(fa),
            forall|k: u64|
                #[trigger] old(page_table).dir1@.contains_key(k) ==> final(page_table).dir1@.contains_key(k) && final(page_table).dir1@[k] == old(page_table).dir1@[k],
            forall|k: u64|
                #[trigger] old(page_table).dir0@.contains_key(k) ==> final(page_table).dir0@.contains_key(k) && final(page_table).dir0@[k] == old(page_table).dir0@[k],
            forall|k: u64|
                final(page_table).dir1@.contains_key(k) && !old(page_table).dir1@.contains_key(k)
                    ==> old(fa).is_free(final(page_table).dir1@[k]),
            forall|k: u64|
                final(page_table).dir0@.contains_key(k) && !old(page_table).dir0@.contains_key(k)
                    ==> old(fa).is_free(final(page_table).dir0@[k]),
            forall|q: u64| old(fa).allocated(q) ==> final(fa).allocated(q),
            final(page_table).dir1.spec_len() >= old(page_table).dir1.spec_len(),
            final(page_table).dir0.spec_len() >= old(page_table).dir0.spec_len(),
            final(fa).free_count() == old(fa).free_count() - (final(page_table).dir1.spec_len()
                - old(page_table).dir1.spec_len()) - (final(page_table).dir0.spec_len() - old(page_table).dir0.spec_len()),
            old(self).map_type == MapType::Identical && r.is_ok() ==> {
                &&& forall|w: u64|
                    final(page_table).mapping().contains_key(w) == (old(page_table).mapping().contains_key(w) || (old(self).vpn_range.end.0 <= w < to.0))
                &&& forall|w: u64|
                    #[trigger] old(page_table).mapping().contains_key(w) ==> !(old(self).vpn_range.end.0 <= w < to.0) && final(page_table).mapping()[w] == old(page_table).mapping()[w]
                &&& forall|w: u64|
                    old(self).vpn_range.end.0 <= w < to.0 ==> final(page_table).mapping()[w]
                        == (PageTableEntry {
                        ppn: w,
                        flags: old(self).map_permission.bits | PTE_V,
                    })
            },
            r.is_err() ==> final(page_table).mapping() == old(page_table).mapping(),
            (forall|w: u64|
                old(self).vpn_range.end.0 <= w < to.0 ==> !old(page_table).mapping().contains_key(
                    w,
                )) && old(fa).free_count() >= 2 * (to.0 - old(self).vpn_range.end.0) ==> r.is_ok(),
            match r {
                Ok(()) => true,
                Err(e) => e == MMError::MemoryNotEnough || e == MMError::PageError(
                    PageError::PageAlreadyAlloc,
                ),
            },
    {
        let lo = self.vpn_range.get_end();
        match self.map_type {
            MapType::Framed => {
                self.vpn_range = VPNRange { start: self.vpn_range.start, end: to };
                proof {
                    assert forall|k: u64| #[trigger] self.frames().contains_key(k) implies self.vpn_range.has(
                        k,
                    ) by {
                        assert(old(self).frames().contains_key(k));
                        assert(old(self).vpn_range.has(k));
                    };
                }
                Ok(())
            },
            MapType::Identical => {
                let ghost self0 = *self;
                let ghost pt0 = *page_table;
                let ghost fa0 = *fa;
                let mut v = lo;
                while v.0 < to.0
                    invariant
                        self0 == *old(self),
                        pt0 == *old(page_table),
                        fa0 == *old(fa),
                        *self == self0,
                        self0.wf(),
                        pt0.wf(),
                        fa0.wf(),
                        pt0.frames_ok(fa0),
                        self.map_type == MapType::Identical,
                        lo == self0.vpn_range.end,
                        lo.0 <= v.0 <= to.0,
                        page_table.wf(),
                        fa.wf(),
                        fa.same_pool(fa0),
                        page_table.frames_ok(*fa),
                        page_table.root_ppn == pt0.root_ppn,
                        forall|k: u64|
                            #[trigger] pt0.dir1@.contains_key(k) ==> page_table.dir1@.contains_key(
                                k,
                            ) && page_table.dir1@[k] == pt0.dir1@[k],
                        forall|k: u64|
                            #[trigger] pt0.dir0@.contains_key(k) ==> page_table.dir0@.contains_key(
                                k,
                            ) && page_table.dir0@[k] == pt0.dir0@[k],
                        forall|k: u64|
                            page_table.dir1@.contains_key(k) && !pt0.dir1@.contains_key(k)
                                ==> fa0.is_free(page_table.dir1@[k]),
                        forall|k: u64|
                            page_table.dir0@.contains_key(k) && !pt0.dir0@.contains_key(k)
                                ==> fa0.is_free(page_table.dir0@[k]),
                        forall|q: u64| fa0.allocated(q) ==> fa.allocated(q),
                        page_table.dir1.spec_len() >= pt0.dir1.spec_len(),
                        page_table.dir0.spec_len() >= pt0.dir0.spec_len(),
                        fa.free_count() == fa0.free_count() - (page_table.dir1.spec_len()
                            - pt0.dir1.spec_len()) - (page_table.dir0.spec_len()
                            - pt0.dir0.spec_len()),
                        forall|w: u64|
                            (#[trigger] page_table.mapping().contains_key(w)) == (
                            pt0.mapping().contains_key(w) || (lo.0 <= w < v.0)),
                        forall|w: u64|
                            #[trigger] pt0.mapping().contains_key(w) ==> !(lo.0 <= w < v.0)
                                && page_table.mapping()[w] == pt0.mapping()[w],
                        forall|w: u64|
                            lo.0 <= w < v.0 ==> (#[trigger] page_table.mapping()[w])
                                == (PageTableEntry {
                                ppn: w,
                                flags: self0.map_permission.bits | PTE_V,
                            }),
                        fa0.free_count() >= 2 * (to.0 - lo.0) ==> fa.free_count() >= 2 * (to.0
                            - v.0),
                    decreases to.0 - v.0,
                {
                    let ghost fa_pre = *fa;
                    let ghost pt_pre = *page_table;
                    match self.map_one(page_table, fa, v) {
                        Ok(()) => {
                            proof {
                                FrameAllocator::lemma_free_shrinks(fa0, fa_pre);
                            }
                        },
                        Err(e) => {
                            proof {
                                FrameAllocator::lemma_free_shrinks(fa0, fa_pre);
                                assert(*page_table == pt_pre);
                                if (forall|w: u64|
                                    self0.vpn_range.end.0 <= w < to.0
                                        ==> !pt0.mapping().contains_key(w)) && fa0.free_count()
                                    >= 2 * (to.0 - self0.vpn_range.end.0) {
                                    assert(!pt0.mapping().contains_key(v.0));
                                    assert(!pt_pre.mapping().contains_key(v.0));
                                    assert(fa_pre.free_count() >= 2 * (to.0 - v.0));
                                    assert(pt_pre.dirs_missing(v.0) <= 2);
                                    assert(false);
                                }
                            }
                            let mut w = lo;
                            proof {
                                assert forall|u: u64|
                                    (#[trigger] page_table.mapping().contains_key(u)) == (
                                    pt0.mapping().contains_key(u) || (w.0 <= u < v.0)) by {
                                    assert(pt_pre.mapping().contains_key(u) == (
                                    pt0.mapping().contains_key(u) || (lo.0 <= u < v.0)));
                                };
                            }
                            while w.0 < v.0
                                invariant
                                    pt0.wf(),
                                    page_table.wf(),
                                    lo.0 <= w.0 <= v.0 <= to.0,
                                    page_table.root_ppn == pt0.root_ppn,
                                    page_table.dir1@ == pt_pre.dir1@,
                                    page_table.dir0@ == pt_pre.dir0@,
                                    page_table.dir1.spec_len() == pt_pre.dir1.spec_len(),
                                    page_table.dir0.spec_len() == pt_pre.dir0.spec_len(),
                                    forall|u: u64|
                                        (#[trigger] page_table.mapping().contains_key(u)) == (
                                        pt0.mapping().contains_key(u) || (w.0 <= u < v.0)),
                                    forall|u: u64|
                                        #[trigger] pt0.mapping().contains_key(u) ==> !(lo.0 <= u
                                            < v.0) && page_table.mapping()[u] == pt0.mapping()[u],
                                decreases v.0 - w.0,
                            {
                                proof {
                                    let w0 = w.0;
                                    assert((w0 >> 9) >> 9 == w0 >> 18) by (bit_vector);
                                    assert(page_table.mapping().contains_key(w.0));
                                    assert(page_table.dirs_present(w.0));
                                }
                                match page_table.unmap(w.0) {
                                    Ok(()) => {},
                                    Err(_) => {
                                        proof {
                                            assert(false);
                                        }
                                    },
                                }
                                w.step();
                            }
                            proof {
                                assert(page_table.mapping() =~= pt0.mapping());
                            }
                            return Err(e);
                        },
                    }
                    v.step();
                }
                self.vpn_range = VPNRange { start: self.vpn_range.start, end: to };
                proof {
                    assert(v.0 == to.0);
                    assert forall|k: u64| #[trigger] self.frames().contains_key(k) implies self.vpn_range.has(
                        k,
                    ) by {
                        assert(self0.frames().contains_key(k));
                    };
                }
                Ok(())
            },
        }
    }
}

} // verus!
