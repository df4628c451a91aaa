//! The address space: one page table plus an ordered collection of
//! non-overlapping mapped regions.
//!
//! Two designated critical pages sit outside region bookkeeping: the
//! trampoline page, mapped directly into the table and never represented by a
//! region, and the trap-context page, which is region-backed in user spaces
//! but protected from user-driven unmapping.  The central invariant is that
//! the table holds a valid entry exactly for the trampoline (once mapped) and
//! for the pages its regions have materialized, with the entry each region
//! dictates.

use vstd::prelude::*;
use crate::addr::{VPNRange, VirtAddr, VirtPageNum};
use crate::config::{KERNEL_STACK_SIZE, MEMORY_END, PAGE_BYTES, PAGE_SIZE, TRAMPOLINE, TRAMPOLINE_VPN, TRAP_CONTEXT_BASE, TRAP_CONTEXT_VPN, USER_STACK_SIZE};
use crate::error::{AreaError, MMError, MMResult};
use crate::frame_alloc::FrameAllocator;
use crate::memory_area::{pages_of, MapArea, MapPermission, MapType};
use crate::elf::{read_le16, read_le64};
use crate::page_table::{PageTable, PageTableEntry, PTE_R, PTE_V, PTE_X};
use crate::phys_mem::PhysMemory;

verus! {

/// Whether region `a` has materialized a mapping for page `v`.
pub open spec fn area_covers(a: MapArea, v: u64) -> bool {
    (a.map_type == MapType::Identical && a.vpn_range.has(v)) || (a.map_type == MapType::Framed
        && a.frames().contains_key(v))
}

/// The table entry region `a` dictates for page `v`.
pub open spec fn area_entry(a: MapArea, v: u64) -> PageTableEntry {
    PageTableEntry {
        ppn: if a.map_type == MapType::Identical {
            v
        } else {
            a.frames()[v]
        },
        flags: a.map_permission.bits | PTE_V,
    }
}

/// The two regions' extents share no page.
pub open spec fn areas_disjoint(a: MapArea, b: MapArea) -> bool {
    forall|v: u64| !(#[trigger] a.vpn_range.has(v) && b.vpn_range.has(v))
}

/// A region's frames stay outside the table's ownership when the table only
/// gained fresh directory frames.
proof fn lemma_area_frames_not_pt_owned(
    a: MapArea,
    pt0: PageTable,
    pt1: PageTable,
    fa0: FrameAllocator,
)
    requires
        a.frames_ok(fa0),
        forall|q: u64| a.owns_frame(q) ==> !pt0.owns(q),
        pt1.root_ppn == pt0.root_ppn,
        forall|k: u64|
            #[trigger] pt0.dir1@.contains_key(k) ==> pt1.dir1@.contains_key(k) && pt1.dir1@[k]
                == pt0.dir1@[k],
        forall|k: u64|
            #[trigger] pt0.dir0@.contains_key(k) ==> pt1.dir0@.contains_key(k) && pt1.dir0@[k]
                == pt0.dir0@[k],
        forall|k: u64|
            pt1.dir1@.contains_key(k) && !pt0.dir1@.contains_key(k) ==> fa0.is_free(
                pt1.dir1@[k],
            ),
        forall|k: u64|
            pt1.dir0@.contains_key(k) && !pt0.dir0@.contains_key(k) ==> fa0.is_free(
                pt1.dir0@[k],
            ),
    ensures
        forall|q: u64| a.owns_frame(q) ==> !pt1.owns(q),
{
    assert forall|q: u64| a.owns_frame(q) implies !pt1.owns(q) by {
        let k = choose|k: u64|
            #[trigger] a.frames().contains_key(k) && a.frames()[k] == q;
        assert(fa0.allocated(q));
        if pt1.owns(q) {
            if q == pt1.root_ppn {
                assert(pt0.owns(q));
            } else if exists|k2: u64|
                #[trigger] pt1.dir1@.contains_key(k2) && pt1.dir1@[k2] == q {
                let k2 = choose|k2: u64|
                    #[trigger] pt1.dir1@.contains_key(k2) && pt1.dir1@[k2] == q;
                if pt0.dir1@.contains_key(k2) {
                    assert(pt0.owns(q));
                } else {
                    assert(fa0.is_free(q));
                }
            } else {
                let k2 = choose|k2: u64|
                    #[trigger] pt1.dir0@.contains_key(k2) && pt1.dir0@[k2] == q;
                if pt0.dir0@.contains_key(k2) {
                    assert(pt0.owns(q));
                } else {
                    assert(fa0.is_free(q));
                }
            }
        }
    };
}

/// An address space.
pub struct MemorySet {
    /// The three-level page table.
    pub page_table: PageTable,
    /// The non-overlapping regions.
    pub areas: Vec<MapArea>,
    /// Frame of the trampoline page, once it is mapped.
    pub trampoline: Option<u64>,
}

impl MemorySet {
    /// Structural invariant: well-formed disjoint regions that never claim
    /// the trampoline page, and a table whose valid entries are exactly the
    /// trampoline (if mapped) plus what the regions have materialized.
    pub open spec fn wf(self) -> bool {
        &&& self.page_table.wf()
        &&& forall|i: int| 0 <= i < self.areas@.len() ==> (#[trigger] self.areas@[i]).wf()
        &&& forall|i: int, j: int, v: u64|
            #![trigger self.areas@[i].vpn_range.has(v), self.areas@[j].vpn_range.has(v)]
            0 <= i < j < self.areas@.len() ==> !(self.areas@[i].vpn_range.has(v)
                && self.areas@[j].vpn_range.has(v))
        &&& forall|i: int|
            0 <= i < self.areas@.len() ==> !(#[trigger] self.areas@[i]).vpn_range.has(
                TRAMPOLINE_VPN,
            )
        &&& forall|v: u64|
            #[trigger] self.page_table.mapping().contains_key(v) ==> v == TRAMPOLINE_VPN
                || exists|i: int|
                0 <= i < self.areas@.len() && #[trigger] area_covers(self.areas@[i], v)
        &&& self.page_table.mapping().contains_key(TRAMPOLINE_VPN) == self.trampoline.is_some()
        &&& self.trampoline.is_some() ==> self.page_table.mapping()[TRAMPOLINE_VPN]
            == (PageTableEntry { ppn: self.trampoline.unwrap(), flags: PTE_R | PTE_X | PTE_V })
        &&& forall|i: int, v: u64|
            0 <= i < self.areas@.len() && #[trigger] area_covers(self.areas@[i], v)
                ==> self.page_table.mapping().contains_key(v) && self.page_table.mapping()[v]
                == area_entry(self.areas@[i], v)
    }

    /// Every frame the space owns is handed out, and no frame has two
    /// owners: regions own their committed frames, the table its directory
    /// frames, all pairwise distinct.
    pub open spec fn frames_ok(self, fa: FrameAllocator) -> bool {
        &&& self.page_table.frames_ok(fa)
        &&& forall|i: int|
            0 <= i < self.areas@.len() ==> (#[trigger] self.areas@[i]).frames_ok(fa)
        &&& forall|i: int, q: u64|
            0 <= i < self.areas@.len() && (#[trigger] self.areas@[i].owns_frame(q))
                ==> !self.page_table.owns(q)
        &&& forall|i: int, j: int, q: u64|
            #![trigger self.areas@[i].owns_frame(q), self.areas@[j].owns_frame(q)]
            0 <= i < self.areas@.len() && 0 <= j < self.areas@.len() && i != j
                && self.areas@[i].owns_frame(q) ==> !self.areas@[j].owns_frame(q)
    }

    /// Create an empty address space: a fresh root table, no regions.
    pub fn new_bare(fa: &mut FrameAllocator) -> (r: MMResult<MemorySet>)
        requires
            old(fa).wf(),
        ensures
            final(fa).wf(),
            final(fa).same_pool(*old(fa)),
            r.is_ok() == (old(fa).free_count() > 0),
            match r {
                Ok(ms) => {
                    &&& ms.wf()
                    &&& ms.frames_ok(*final(fa))
                    &&& ms.areas@.len() == 0
                    &&& ms.trampoline.is_none()
                    &&& ms.page_table.mapping() == Map::<u64, PageTableEntry>::empty()
                    &&& forall|q: u64| old(fa).allocated(q) ==> final(fa).allocated(q)
                    &&& final(fa).free_count() == old(fa).free_count() - 1
                },
                Err(e) => e == MMError::MemoryNotEnough && *final(fa) == *old(fa),
            },
    {
        let pt = match PageTable::new(fa) {
            Ok(pt) => pt,
            Err(e) => {
                return Err(e);
            },
        };
        Ok(MemorySet { page_table: pt, areas: Vec::new(), trampoline: None })
    }

    /// The control-register value that activates this space's table.
    pub fn token(&self) -> (r: u64)
        ensures
            r == (8u64 << 60) | self.page_table.root_ppn,
    {
        self.page_table.token()
    }

    /// Map the trampoline page directly in the table (readable and
    /// executable), outside region bookkeeping.
    pub fn map_trampoline(&mut self, fa: &mut FrameAllocator, trampoline_ppn: u64) -> (r: MMResult<
        (),
    >)
        requires
            old(self).wf(),
            old(fa).wf(),
            old(self).frames_ok(*old(fa)),
            old(self).trampoline.is_none(),
        ensures
            final(self).wf(),
            final(fa).wf(),
            final(fa).same_pool(*old(fa)),
            final(self).frames_ok(*final(fa)),
            final(self).areas@ == old(self).areas@,
            final(self).page_table.root_ppn == old(self).page_table.root_ppn,
            r.is_ok() == (old(fa).free_count() >= old(self).page_table.dirs_missing(
                TRAMPOLINE_VPN,
            )),
            r.is_ok() ==> {
                &&& final(self).trampoline == Some(trampoline_ppn)
                &&& final(self).page_table.mapping() == old(self).page_table.mapping().insert(
                    TRAMPOLINE_VPN,
                    PageTableEntry { ppn: trampoline_ppn, flags: PTE_R | PTE_X | PTE_V },
                )
                &&& forall|q: u64| old(fa).allocated(q) ==> final(fa).allocated(q)
                &&& final(fa).free_count() == old(fa).free_count() - old(self).page_table.dirs_missing(TRAMPOLINE_VPN)
            },
            r.is_err() ==> *final(self) == *old(self) && *final(fa) == *old(fa) && r
                == Err::<(), MMError>(MMError::MemoryNotEnough),
    {
        let ghost self0 = *self;
        proof {
            assert(!self.page_table.mapping().contains_key(TRAMPOLINE_VPN));
        }
        match self.page_table.map(fa, TRAMPOLINE_VPN, trampoline_ppn, PTE_R | PTE_X) {
            Ok(()) => {
                self.trampoline = Some(trampoline_ppn);
                proof {
                    assert forall|v: u64|
                        #[trigger] self.page_table.mapping().contains_key(v) implies v
                        == TRAMPOLINE_VPN || exists|i: int|
                        0 <= i < self.areas@.len() && #[trigger] area_covers(
                            self.areas@[i],
                            v,
                        ) by {
                        if v != TRAMPOLINE_VPN {
                            assert(self0.page_table.mapping().contains_key(v));
                            let i = choose|i: int|
                                0 <= i < self0.areas@.len() && #[trigger] area_covers(
                                    self0.areas@[i],
                                    v,
                                );
                            assert(self.areas@ == self0.areas@);
                            assert(area_covers(self.areas@[i], v));
                        }
                    };
                    assert forall|i: int, v: u64|
                        0 <= i < self.areas@.len() && #[trigger] area_covers(
                            self.areas@[i],
                            v,
                        ) implies self.page_table.mapping().contains_key(v)
                        && self.page_table.mapping()[v] == area_entry(self.areas@[i], v) by {
                        assert(area_covers(self0.areas@[i], v));
                        assert(v != TRAMPOLINE_VPN);
                    };
                    assert forall|i: int, q: u64|
                        0 <= i < self.areas@.len() && (#[trigger] self.areas@[i].owns_frame(
                            q,
                        )) implies !self.page_table.owns(q) by {
                        assert(self0.areas@[i].owns_frame(q));
                        let k = choose|k: u64|
                            #[trigger] self0.areas@[i].frames().contains_key(k)
                                && self0.areas@[i].frames()[k] == q;
                        assert(self0.areas@[i].frames_ok(*old(fa)));
                        assert(old(fa).allocated(q));
                        if self.page_table.owns(q) {
                            if q == self.page_table.root_ppn {
                                assert(self0.page_table.owns(q));
                            } else if exists|k2: u64|
                                #[trigger] self.page_table.dir1@.contains_key(k2)
                                    && self.page_table.dir1@[k2] == q {
                                let k2 = choose|k2: u64|
                                    #[trigger] self.page_table.dir1@.contains_key(k2)
                                        && self.page_table.dir1@[k2] == q;
                                if self0.page_table.dir1@.contains_key(k2) {
                                    assert(self0.page_table.owns(q));
                                } else {
                                    assert(old(fa).is_free(q));
                                }
                            } else {
                                let k2 = choose|k2: u64|
                                    #[trigger] self.page_table.dir0@.contains_key(k2)
                                        && self.page_table.dir0@[k2] == q;
                                if self0.page_table.dir0@.contains_key(k2) {
                                    assert(self0.page_table.owns(q));
                                } else {
                                    assert(old(fa).is_free(q));
                                }
                            }
                        }
                    };
                }
                Ok(())
            },
            Err(e) => {
                proof {
                    assert(e == MMError::MemoryNotEnough);
                }
                Err(e)
            },
        }
    }

    /// A mapped page inside region `i`'s extent carries exactly the entry
    /// that region dictates: its permission bits plus the valid bit.
    pub proof fn lemma_cover_entry(self, vpn: u64, i: int)
        requires
            self.wf(),
            0 <= i < self.areas@.len(),
            self.areas@[i].vpn_range.has(vpn),
            self.page_table.mapping().contains_key(vpn),
        ensures
            self.page_table.mapping()[vpn].flags == self.areas@[i].map_permission.bits | PTE_V,
    {
        assert(vpn != TRAMPOLINE_VPN);
        let j = choose|j: int|
            0 <= j < self.areas@.len() && #[trigger] area_covers(self.areas@[j], vpn);
        assert(self.areas@[j].wf());
        assert(self.areas@[j].vpn_range.has(vpn));
        assert(j == i);
        assert(self.page_table.mapping()[vpn] == area_entry(self.areas@[j], vpn));
    }

    /// No page of `range` is mapped when `range` avoids the trampoline and is
    /// disjoint from every region.
    proof fn lemma_span_unmapped(self, range: VPNRange)
        requires
            self.wf(),
            !range.has(TRAMPOLINE_VPN),
            forall|i: int, v: u64|
                #![trigger self.areas@[i].vpn_range.has(v)]
                0 <= i < self.areas@.len() ==> !(self.areas@[i].vpn_range.has(v) && range.has(
                    v,
                )),
        ensures
            forall|v: u64| range.has(v) ==> !self.page_table.mapping().contains_key(v),
    {
        assert forall|v: u64| range.has(v) implies !self.page_table.mapping().contains_key(v) by {
            if self.page_table.mapping().contains_key(v) {
                if v != TRAMPOLINE_VPN {
                    let i = choose|i: int|
                        0 <= i < self.areas@.len() && #[trigger] area_covers(self.areas@[i], v);
                    assert(self.areas@[i].wf());
                    assert(self.areas@[i].vpn_range.has(v));
                }
            }
        };
    }

    /// Register a region without eager frame allocation.  A framed region
    /// only joins the region list; an identity region also materializes its
    /// (purely arithmetic) mappings at once.
    #[verifier::rlimit(100)]
    #[verifier::spinoff_prover]
    fn push_lazy(&mut self, fa: &mut FrameAllocator, map_area: MapArea) -> (r: MMResult<()>)
        requires
            old(self).wf(),
            old(fa).wf(),
            old(self).frames_ok(*old(fa)),
            map_area.wf(),
            map_area.frames() == Map::<u64, u64>::empty(),
            forall|i: int|
                0 <= i < old(self).areas@.len() ==> areas_disjoint(
                    map_area,
                    #[trigger] old(self).areas@[i],
                ),
            !map_area.vpn_range.has(TRAMPOLINE_VPN),
        ensures
            final(self).wf(),
            final(fa).wf(),
            final(fa).same_pool(*old(fa)),
            final(self).frames_ok(*final(fa)),
            final(self).trampoline == old(self).trampoline,
            final(self).page_table.root_ppn == old(self).page_table.root_ppn,
            forall|q: u64| old(fa).allocated(q) ==> final(fa).allocated(q),
            final(fa).free_count() <= old(fa).free_count(),
            final(fa).free_count() >= old(fa).free_count() - 2 * map_area.vpn_range.len_spec(),
            map_area.map_type == MapType::Framed ==> r.is_ok() && *final(fa) == *old(fa) && final(self).page_table.mapping() == old(self).page_table.mapping(),
            old(fa).free_count() >= 2 * map_area.vpn_range.len_spec() ==> r.is_ok(),
            r.is_ok() ==> {
                &&& final(self).areas@ == old(self).areas@.push(map_area)
                &&& forall|v: u64|
                    final(self).page_table.mapping().contains_key(v) == (old(self).page_table.mapping().contains_key(v) || (map_area.map_type
                        == MapType::Identical && map_area.vpn_range.has(v)))
                &&& forall|v: u64|
                    #[trigger] old(self).page_table.mapping().contains_key(v) ==> final(self).page_table.mapping()[v] == old(self).page_table.mapping()[v]
            },
            r.is_err() ==> {
                &&& (r == Err::<(), MMError>(MMError::MemoryNotEnough) || r == Err::<(), MMError>(
                    MMError::PageError(crate::error::PageError::PageAlreadyAlloc),
                ))
                &&& final(self).areas@ == old(self).areas@
                &&& final(self).trampoline == old(self).trampoline
                &&& forall|v: u64|
                    final(self).page_table.mapping().contains_key(v) == old(self).page_table.mapping().contains_key(v)
                &&& forall|v: u64|
                    #[trigger] old(self).page_table.mapping().contains_key(v) ==> final(self).page_table.mapping()[v] == old(self).page_table.mapping()[v]
            },
    {
        let mut map_area = map_area;
        let ghost self0 = *self;
        let ghost fa0 = *fa;
        let ghost area0 = map_area;
        proof {
            self0.lemma_span_unmapped(map_area.vpn_range);
        }
        match map_area.map(&mut self.page_table, fa) {
            Ok(()) => {},
            Err(e) => {
                proof {
                    assert forall|v: u64|
                        #[trigger] self.page_table.mapping().contains_key(v) implies v
                        == TRAMPOLINE_VPN || exists|i: int|
                        0 <= i < self.areas@.len() && #[trigger] area_covers(
                            self.areas@[i],
                            v,
                        ) by {
                        let ghost b = self0.page_table.mapping().contains_key(v);
                        assert(self0.page_table.mapping().contains_key(v));
                        if v != TRAMPOLINE_VPN {
                            let i = choose|i: int|
                                0 <= i < self0.areas@.len() && #[trigger] area_covers(
                                    self0.areas@[i],
                                    v,
                                );
                            assert(area_covers(self.areas@[i], v));
                        }
                    };
                    assert forall|i: int, v: u64|
                        0 <= i < self.areas@.len() && #[trigger] area_covers(
                            self.areas@[i],
                            v,
                        ) implies self.page_table.mapping().contains_key(v)
                        && self.page_table.mapping()[v] == area_entry(self.areas@[i], v) by {
                        assert(area_covers(self0.areas@[i], v));
                        assert(self0.page_table.mapping().contains_key(v));
                        assert(self0.page_table.mapping()[v] == area_entry(self0.areas@[i], v));
                    };
                    assert forall|i: int, q: u64|
                        0 <= i < self.areas@.len() && (#[trigger] self.areas@[i].owns_frame(
                            q,
                        )) implies !self.page_table.owns(q) by {
                        lemma_area_frames_not_pt_owned(
                            self0.areas@[i],
                            self0.page_table,
                            self.page_table,
                            fa0,
                        );
                    };
                }
                return Err(e);
            },
        }
        self.areas.push(map_area);
        proof {
            assert(map_area == area0);
            assert(self.areas@ == self0.areas@.push(area0));
            assert(forall|q: u64| !area0.owns_frame(q)) by {
                assert forall|q: u64| !area0.owns_frame(q) by {
                    if area0.owns_frame(q) {
                        let k = choose|k: u64|
                            #[trigger] area0.frames().contains_key(k) && area0.frames()[k] == q;
                    }
                };
            }
            let n = self0.areas@.len() as int;
            assert forall|v: u64|
                #[trigger] self.page_table.mapping().contains_key(v) implies v == TRAMPOLINE_VPN
                || exists|i: int|
                0 <= i < self.areas@.len() && #[trigger] area_covers(self.areas@[i], v) by {
                if v != TRAMPOLINE_VPN {
                    if self0.page_table.mapping().contains_key(v) {
                        let i = choose|i: int|
                            0 <= i < self0.areas@.len() && #[trigger] area_covers(
                                self0.areas@[i],
                                v,
                            );
                        assert(self.areas@[i] == self0.areas@[i]);
                        assert(area_covers(self.areas@[i], v));
                    } else {
                        assert(area0.map_type == MapType::Identical && area0.vpn_range.has(v));
                        assert(area_covers(self.areas@[n], v));
                    }
                }
            };
            assert forall|i: int, v: u64|
                0 <= i < self.areas@.len() && #[trigger] area_covers(
                    self.areas@[i],
                    v,
                ) implies self.page_table.mapping().contains_key(v) && self.page_table.mapping()[v]
                == area_entry(self.areas@[i], v) by {
                if i < n {
                    assert(area_covers(self0.areas@[i], v));
                    assert(self0.page_table.mapping().contains_key(v));
                    assert(self0.page_table.mapping()[v] == area_entry(self0.areas@[i], v));
                } else {
                    assert(self.areas@[i] == area0);
                    assert(area0.map_type == MapType::Identical && area0.vpn_range.has(v));
                }
            };
            assert forall|i: int, q: u64|
                0 <= i < self.areas@.len() && (#[trigger] self.areas@[i].owns_frame(q)) implies !self.page_table.owns(
                q,
            ) by {
                if i < n {
                    lemma_area_frames_not_pt_owned(
                        self0.areas@[i],
                        self0.page_table,
                        self.page_table,
                        fa0,
                    );
                } else {
                    assert(!area0.owns_frame(q));
                }
            };
        }
        Ok(())
    }

    /// Insert a framed region over `[start_va, end_va)` without committing
    /// any frame; frames appear only when the range is later touched or
    /// explicitly made resident.
    pub fn insert_framed_area_lazy(
        &mut self,
        fa: &mut FrameAllocator,
        start_va: VirtAddr,
        end_va: VirtAddr,
        permission: MapPermission,
    ) -> (r: MMResult<()>)
        requires
            old(self).wf(),
            old(fa).wf(),
            old(self).frames_ok(*old(fa)),
            start_va.0 <= end_va.0,
            end_va.wf(),
            permission.wf(),
            forall|i: int, v: u64|
                #![trigger old(self).areas@[i].vpn_range.has(v)]
                0 <= i < old(self).areas@.len() ==> !(old(self).areas@[i].vpn_range.has(v)
                    && page_span(start_va, end_va).has(v)),
            !page_span(start_va, end_va).has(TRAMPOLINE_VPN),
        ensures
            r.is_ok(),
            final(self).wf(),
            final(fa).wf(),
            final(self).frames_ok(*final(fa)),
            *final(fa) == *old(fa),
            final(self).trampoline == old(self).trampoline,
            final(self).page_table.mapping() == old(self).page_table.mapping(),
            final(self).areas@.len() == old(self).areas@.len() + 1,
            forall|i: int|
                0 <= i < old(self).areas@.len() ==> final(self).areas@[i] == old(self).areas@[i],
            final(self).areas@.last().vpn_range == page_span(start_va, end_va),
            final(self).areas@.last().map_type == MapType::Framed,
            final(self).areas@.last().map_permission == permission,
            final(self).areas@.last().frames() == Map::<u64, u64>::empty(),
            final(self).areas@.last().data_frames.spec_len() == 0,
    {
        let area = MapArea::new(start_va, end_va, MapType::Framed, permission);
        proof {
            assert(area.vpn_range == page_span(start_va, end_va));
        }
        let ghost fa0 = *fa;
        let r = self.push_lazy(fa, area);
        proof {
            assert(r.is_ok());
        }
        r
    }

    /// Whether a page of `range` falls inside an existing region.
    fn is_mapped(&self, range: VPNRange) -> (r: bool)
        requires
            self.wf(),
            range.wf(),
        ensures
            r == exists|i: int, v: u64|
                0 <= i < self.areas@.len() && (#[trigger] self.areas@[i].vpn_range.has(v))
                    && range.has(v),
    {
        let n = self.areas.len();
        let mut i: usize = 0;
        while i < n
            invariant
                self.wf(),
                range.wf(),
                n == self.areas@.len(),
                i <= n,
                forall|j: int, v: u64|
                    0 <= j < i ==> !((#[trigger] self.areas@[j].vpn_range.has(v)) && range.has(
                        v,
                    )),
            decreases n - i,
        {
            let area_range = self.areas[i].get_vpn_range();
            if area_range.intersects(&range) {
                proof {
                    let v = choose|v: u64| area_range.has(v) && range.has(v);
                    assert(self.areas@[i as int].vpn_range.has(v) && range.has(v));
                }
                return true;
            }
            i = i + 1;
        }
        false
    }

    /// Whether `vpn` is one of the two protected pages: the trampoline or
    /// the trap context.
    fn is_critical(&self, vpn: VirtPageNum) -> (r: bool)
        ensures
            r == (vpn.0 == TRAMPOLINE_VPN || vpn.0 == TRAP_CONTEXT_VPN),
    {
        vpn.0 == TRAMPOLINE_VPN || vpn.0 == TRAP_CONTEXT_VPN
    }

    /// Serve a memory-map request: register a framed region over
    /// `[start_va, end_va)` lazily.  A range touching the trampoline or
    /// trap-context page is refused as critical; one overlapping an existing
    /// region is refused as already mapped, leaving that region's mapping
    /// unchanged.
    #[verifier::rlimit(100)]
    #[verifier::spinoff_prover]
    pub fn map_memory(
        &mut self,
        fa: &mut FrameAllocator,
        start_va: VirtAddr,
        end_va: VirtAddr,
        permission: MapPermission,
    ) -> (r: MMResult<()>)
        requires
            old(self).wf(),
            old(fa).wf(),
            old(self).frames_ok(*old(fa)),
            start_va.0 <= end_va.0,
            end_va.wf(),
            permission.wf(),
        ensures
            final(self).wf(),
            final(fa).wf(),
            final(self).frames_ok(*final(fa)),
            *final(fa) == *old(fa),
            final(self).trampoline == old(self).trampoline,
            final(self).page_table.mapping() == old(self).page_table.mapping(),
            page_span(start_va, end_va).has(TRAMPOLINE_VPN) || page_span(start_va, end_va).has(
                TRAP_CONTEXT_VPN,
            ) ==> r == Err::<(), MMError>(MMError::AreaError(AreaError::CriticalArea)),
            !(page_span(start_va, end_va).has(TRAMPOLINE_VPN) || page_span(start_va, end_va).has(
                TRAP_CONTEXT_VPN,
            )) && (exists|i: int, v: u64|
                0 <= i < old(self).areas@.len() && (#[trigger] old(self).areas@[i].vpn_range.has(
                    v,
                )) && page_span(start_va, end_va).has(v)) ==> r == Err::<(), MMError>(
                MMError::AreaError(AreaError::ContainMapped),
            ),
            !(page_span(start_va, end_va).has(TRAMPOLINE_VPN) || page_span(start_va, end_va).has(
                TRAP_CONTEXT_VPN,
            )) && !(exists|i: int, v: u64|
                0 <= i < old(self).areas@.len() && (#[trigger] old(self).areas@[i].vpn_range.has(
                    v,
                )) && page_span(start_va, end_va).has(v)) ==> r == Ok::<(), MMError>(()),
            r.is_err() ==> *final(self) == *old(self),
            r.is_ok() ==> {
                &&& final(self).areas@.len() == old(self).areas@.len() + 1
                &&& forall|i: int|
                    0 <= i < old(self).areas@.len() ==> final(self).areas@[i] == old(self).areas@[i]
                &&& final(self).areas@.last().vpn_range == page_span(start_va, end_va)
                &&& final(self).areas@.last().map_type == MapType::Framed
                &&& final(self).areas@.last().map_permission == permission
                &&& final(self).areas@.last().frames() == Map::<u64, u64>::empty()
                &&& final(self).areas@.last().data_frames.spec_len() == 0
            },
    {
        let area = MapArea::new(start_va, end_va, MapType::Framed, permission);
        let range = area.get_vpn_range();
        proof {
            assert(range == page_span(start_va, end_va));
        }
        let critical = range.is_contains(VirtPageNum(TRAMPOLINE_VPN)) || range.is_contains(
            VirtPageNum(TRAP_CONTEXT_VPN),
        );
        proof {
            assert(critical == (page_span(start_va, end_va).has(TRAMPOLINE_VPN) || page_span(
                start_va,
                end_va,
            ).has(TRAP_CONTEXT_VPN)));
        }
        if critical {
            return Err(MMError::AreaError(AreaError::CriticalArea));
        }
        let overlapping = self.is_mapped(range);
        proof {
            assert(overlapping == exists|i: int, v: u64|
                0 <= i < old(self).areas@.len() && (#[trigger] old(self).areas@[i].vpn_range.has(
                    v,
                )) && page_span(start_va, end_va).has(v)) by {
                if overlapping {
                    let (i, v) = choose|i: int, v: u64|
                        0 <= i < self.areas@.len() && (#[trigger] self.areas@[i].vpn_range.has(v))
                            && range.has(v);
                    assert(old(self).areas@[i].vpn_range.has(v) && page_span(
                        start_va,
                        end_va,
                    ).has(v));
                }
                if exists|i: int, v: u64|
                    0 <= i < old(self).areas@.len() && (
                    #[trigger] old(self).areas@[i].vpn_range.has(v)) && page_span(
                        start_va,
                        end_va,
                    ).has(v) {
                    let (i, v) = choose|i: int, v: u64|
                        0 <= i < old(self).areas@.len() && (
                        #[trigger] old(self).areas@[i].vpn_range.has(v)) && page_span(
                            start_va,
                            end_va,
                        ).has(v);
                    assert(self.areas@[i].vpn_range.has(v) && range.has(v));
                }
            };
        }
        if overlapping {
            return Err(MMError::AreaError(AreaError::ContainMapped));
        }
        let ghost fa0 = *fa;
        let r = self.push_lazy(fa, area);
        match r {
            Ok(()) => Ok(()),
            Err(_) => {
                proof {
                    assert(false);
                }
                Err(MMError::MemoryNotEnough)
            },
        }
    }

    /// Page `w` lies inside some region's extent.
    pub open spec fn page_in_some_area(self, w: u64) -> bool {
        exists|i: int|
            0 <= i < self.areas@.len() && (#[trigger] self.areas@[i]).vpn_range.has(w)
    }

    /// Every page of `range` lies inside some region's extent.
    pub open spec fn covers_range(self, range: VPNRange) -> bool {
        forall|v: u64| range.has(v) ==> #[trigger] self.page_in_some_area(v)
    }

    /// Whether page `v` lies inside some region's extent.
    fn covered_page(&self, v: VirtPageNum) -> (r: bool)
        requires
            self.wf(),
        ensures
            r == self.page_in_some_area(v.0),
    {
        let n = self.areas.len();
        let mut i: usize = 0;
        while i < n
            invariant
                self.wf(),
                n == self.areas@.len(),
                i <= n,
                forall|j: int| 0 <= j < i ==> !(#[trigger] self.areas@[j]).vpn_range.has(v.0),
            decreases n - i,
        {
            if self.areas[i].get_vpn_range().is_contains(v) {
                return true;
            }
            i = i + 1;
        }
        false
    }

    /// Whether part of `range` lies outside every region.
    fn is_unmapped(&self, range: VPNRange) -> (r: bool)
        requires
            self.wf(),
            range.wf(),
        ensures
            r == !self.covers_range(range),
    {
        let mut v = range.get_start();
        let end = range.get_end();
        while v.0 < end.0
            invariant
                self.wf(),
                range.wf(),
                range.start.0 <= v.0 <= range.end.0,
                end == range.end,
                forall|w: u64| range.start.0 <= w < v.0 ==> #[trigger] self.page_in_some_area(w),
            decreases end.0 - v.0,
        {
            let found = self.covered_page(v);
            if !found {
                proof {
                    assert(range.has(v.0));
                    assert(!self.page_in_some_area(v.0));
                    assert(!self.covers_range(range));
                }
                return true;
            }
            v.step();
        }
        proof {
            assert(v.0 == range.end.0);
        }
        false
    }

    /// Serve a memory-unmap request over `[start_va, end_va)`.  A range
    /// touching the trampoline or trap-context page is always refused as
    /// critical; one not fully covered by regions is refused; otherwise every
    /// overlapping region is partitioned, the parts outside the range stay,
    /// and the target part is unmapped with its frames given back.
    #[verifier::rlimit(100)]
    #[verifier::spinoff_prover]
    pub fn unmap_memory(&mut self, fa: &mut FrameAllocator, start_va: VirtAddr, end_va: VirtAddr)
        -> (r: MMResult<()>)
        requires
            old(self).wf(),
            old(fa).wf(),
            old(self).frames_ok(*old(fa)),
            start_va.0 <= end_va.0,
            end_va.wf(),
        ensures
            final(self).wf(),
            final(fa).wf(),
            final(fa).same_pool(*old(fa)),
            final(self).frames_ok(*final(fa)),
            final(self).trampoline == old(self).trampoline,
            page_span(start_va, end_va).has(TRAMPOLINE_VPN) || page_span(start_va, end_va).has(
                TRAP_CONTEXT_VPN,
            ) ==> r == Err::<(), MMError>(MMError::AreaError(AreaError::CriticalArea)),
            !(page_span(start_va, end_va).has(TRAMPOLINE_VPN) || page_span(start_va, end_va).has(
                TRAP_CONTEXT_VPN,
            )) && !old(self).covers_range(page_span(start_va, end_va)) ==> r == Err::<(), MMError>(
                MMError::AreaError(AreaError::ContainUnmapped),
            ),
            !(page_span(start_va, end_va).has(TRAMPOLINE_VPN) || page_span(start_va, end_va).has(
                TRAP_CONTEXT_VPN,
            )) && old(self).covers_range(page_span(start_va, end_va)) ==> r == Ok::<(), MMError>(
                (),
            ),
            r.is_err() ==> *final(self) == *old(self) && *final(fa) == *old(fa),
            r.is_ok() ==> {
                &&& forall|v: u64|
                    page_span(start_va, end_va).has(v) ==> !final(self).page_table.mapping().contains_key(v)
                &&& forall|v: u64|
                    !page_span(start_va, end_va).has(v) ==> final(self).page_table.mapping().contains_key(v) == old(self).page_table.mapping().contains_key(v) && (old(self).page_table.mapping().contains_key(v) ==> final(self).page_table.mapping()[v]
                        == old(self).page_table.mapping()[v])
                &&& forall|i: int, v: u64|
                    0 <= i < final(self).areas@.len() && (
                    #[trigger] final(self).areas@[i].vpn_range.has(v)) ==> !page_span(
                        start_va,
                        end_va,
                    ).has(v)
                &&& forall|q: u64| old(fa).is_free(q) ==> final(fa).is_free(q)
                &&& final(fa).free_count() >= old(fa).free_count()
                &&& forall|q: u64|
                    final(fa).is_free(q) == (old(fa).is_free(q) || exists|i: int|
                        0 <= i < old(self).areas@.len() && #[trigger] old(self).areas@[i].owns_frame_in(
                            page_span(start_va, end_va).start.0,
                            page_span(start_va, end_va).end.0,
                            q,
                        ))
                &&& forall|i: int, v: u64|
                    #![trigger old(self).areas@[i].vpn_range.has(v)]
                    0 <= i < old(self).areas@.len() && old(self).areas@[i].vpn_range.has(v)
                        && !page_span(start_va, end_va).has(v) ==> exists|j: int|
                        0 <= j < final(self).areas@.len() && (
                        #[trigger] final(self).areas@[j].vpn_range.has(v)) && final(self).areas@[j].map_type == old(self).areas@[i].map_type && final(self).areas@[j].map_permission == old(self).areas@[i].map_permission && (old(self).areas@[i].frames().contains_key(v) ==> final(self).areas@[j].frames().contains_key(v) && final(self).areas@[j].frames()[v]
                            == old(self).areas@[i].frames()[v])
            },
    {
        let target = VPNRange::new(start_va.floor(), end_va.ceil());
        proof {
            assert(target == page_span(start_va, end_va));
        }
        if self.is_critical(VirtPageNum(TRAMPOLINE_VPN)) && target.is_contains(
            VirtPageNum(TRAMPOLINE_VPN),
        ) || self.is_critical(VirtPageNum(TRAP_CONTEXT_VPN)) && target.is_contains(
            VirtPageNum(TRAP_CONTEXT_VPN),
        ) {
            return Err(MMError::AreaError(AreaError::CriticalArea));
        }
        if self.is_unmapped(target) {
            return Err(MMError::AreaError(AreaError::ContainUnmapped));
        }
        let ghost ms0 = *self;
        let ghost fa0 = *fa;
        let ghost n = self.areas@.len() as int;
        let mut kept: Vec<MapArea> = Vec::new();
        while self.areas.len() > 0
            invariant
                ms0.wf(),
                fa0.wf(),
                ms0.frames_ok(fa0),
                target.wf(),
                !target.has(TRAMPOLINE_VPN),
                n == ms0.areas@.len(),
                self.areas@.len() <= n,
                self.areas@ == ms0.areas@.subrange(n - self.areas@.len(), n),
                self.page_table.wf(),
                fa.wf(),
                fa.same_pool(fa0),
                self.trampoline == ms0.trampoline,
                self.page_table.root_ppn == ms0.page_table.root_ppn,
                self.page_table.dir1@ == ms0.page_table.dir1@,
                self.page_table.dir0@ == ms0.page_table.dir0@,
                self.page_table.frames_ok(*fa),
                forall|q: u64| fa0.is_free(q) ==> fa.is_free(q),
                fa.free_count() >= fa0.free_count(),
                forall|j: int| 0 <= j < kept@.len() ==> (#[trigger] kept@[j]).wf(),
                forall|j: int, v: u64|
                    0 <= j < kept@.len() && (#[trigger] kept@[j].vpn_range.has(v)) ==> !target.has(
                        v,
                    ),
                forall|j: int| 0 <= j < kept@.len() ==> (#[trigger] kept@[j]).frames_ok(*fa),
                forall|i: int| 0 <= i < self.areas@.len() ==> (#[trigger] self.areas@[i]).wf(),
                forall|i: int| 0 <= i < self.areas@.len() ==> (#[trigger] self.areas@[i]).frames_ok(
                    *fa,
                ),
                forall|j1: int, j2: int, v: u64|
                    #![trigger kept@[j1].vpn_range.has(v), kept@[j2].vpn_range.has(v)]
                    0 <= j1 < j2 < kept@.len() ==> !(kept@[j1].vpn_range.has(v)
                        && kept@[j2].vpn_range.has(v)),
                forall|j: int, i: int, v: u64|
                    #![trigger kept@[j].vpn_range.has(v), self.areas@[i].vpn_range.has(v)]
                    0 <= j < kept@.len() && 0 <= i < self.areas@.len() ==> !(kept@[j].vpn_range.has(
                        v,
                    ) && self.areas@[i].vpn_range.has(v)),
                forall|j: int, q: u64|
                    0 <= j < kept@.len() && (#[trigger] kept@[j].owns_frame(q))
                        ==> !self.page_table.owns(q),
                forall|i: int, q: u64|
                    0 <= i < self.areas@.len() && (#[trigger] self.areas@[i].owns_frame(q))
                        ==> !self.page_table.owns(q),
                forall|j1: int, j2: int, q: u64|
                    #![trigger kept@[j1].owns_frame(q), kept@[j2].owns_frame(q)]
                    0 <= j1 < kept@.len() && 0 <= j2 < kept@.len() && j1 != j2 ==> !(
                    kept@[j1].owns_frame(q) && kept@[j2].owns_frame(q)),
                forall|j: int, i: int, q: u64|
                    #![trigger kept@[j].owns_frame(q), self.areas@[i].owns_frame(q)]
                    0 <= j < kept@.len() && 0 <= i < self.areas@.len() ==> !(kept@[j].owns_frame(
                        q,
                    ) && self.areas@[i].owns_frame(q)),
                forall|i1: int, i2: int, q: u64|
                    #![trigger self.areas@[i1].owns_frame(q), self.areas@[i2].owns_frame(q)]
                    0 <= i1 < self.areas@.len() && 0 <= i2 < self.areas@.len() && i1 != i2 ==> !(
                    self.areas@[i1].owns_frame(q) && self.areas@[i2].owns_frame(q)),
                forall|q: u64|
                    fa.is_free(q) == (fa0.is_free(q) || exists|i: int|
                        0 <= i < n - self.areas@.len() && #[trigger] ms0.areas@[i].owns_frame_in(
                            target.start.0,
                            target.end.0,
                            q,
                        )),
                forall|i: int, v: u64|
                    #![trigger ms0.areas@[i].vpn_range.has(v)]
                    0 <= i < n - self.areas@.len() && ms0.areas@[i].vpn_range.has(v)
                        && !target.has(v) ==> exists|j: int|
                        0 <= j < kept@.len() && (#[trigger] kept@[j].vpn_range.has(v))
                            && kept@[j].map_type == ms0.areas@[i].map_type
                            && kept@[j].map_permission == ms0.areas@[i].map_permission && (
                        ms0.areas@[i].frames().contains_key(v) ==> kept@[j].frames().contains_key(
                            v,
                        ) && kept@[j].frames()[v] == ms0.areas@[i].frames()[v]),
                forall|v: u64|
                    !target.has(v) ==> (#[trigger] self.page_table.mapping().contains_key(v))
                        == ms0.page_table.mapping().contains_key(v) && (
                    ms0.page_table.mapping().contains_key(v) ==> self.page_table.mapping()[v]
                        == ms0.page_table.mapping()[v]),
                forall|v: u64|
                    target.has(v) && (#[trigger] self.page_table.mapping().contains_key(v))
                        ==> exists|i: int|
                        0 <= i < self.areas@.len() && #[trigger] area_covers(self.areas@[i], v),
                forall|v: u64|
                    #[trigger] self.page_table.mapping().contains_key(v) ==> v == TRAMPOLINE_VPN
                        || (exists|i: int|
                        0 <= i < self.areas@.len() && #[trigger] area_covers(self.areas@[i], v))
                        || (exists|j: int|
                        0 <= j < kept@.len() && #[trigger] area_covers(kept@[j], v)),
                forall|i: int, v: u64|
                    0 <= i < self.areas@.len() && #[trigger] area_covers(self.areas@[i], v)
                        ==> self.page_table.mapping().contains_key(v)
                        && self.page_table.mapping()[v] == area_entry(self.areas@[i], v),
                forall|j: int, v: u64|
                    0 <= j < kept@.len() && #[trigger] area_covers(kept@[j], v)
                        ==> self.page_table.mapping().contains_key(v)
                        && self.page_table.mapping()[v] == area_entry(kept@[j], v),
                forall|j: int|
                    0 <= j < kept@.len() ==> !(#[trigger] kept@[j]).vpn_range.has(TRAMPOLINE_VPN),
            decreases self.areas@.len(),
        {
            let ghost areas_pre = self.areas@;
            let ghost kept_pre = kept@;
            let ghost fa_pre = *fa;
            let ghost pt_pre = self.page_table;
            let area = self.areas.remove(0);
            proof {
                assert(area == areas_pre[0]);
                assert(self.areas@ =~= areas_pre.subrange(1, areas_pre.len() as int));
                assert(self.areas@ =~= ms0.areas@.subrange(n - self.areas@.len(), n));
                assert(forall|i: int|
                    0 <= i < self.areas@.len() ==> self.areas@[i] == areas_pre[i + 1]);
            }
            let (l, _rr, rem) = area.get_vpn_range().exclude(&target);
            if rem.is_empty() {
                kept.push(area);
                proof {
                    assert(kept@ == kept_pre.push(area));
                    assert forall|v: u64| #[trigger] area.vpn_range.has(v) implies !target.has(
                        v,
                    ) by {
                        assert(!rem.has(v));
                    };
                    assert forall|v: u64|
                        target.has(v) && (#[trigger] self.page_table.mapping().contains_key(
                            v,
                        )) implies exists|i: int|
                        0 <= i < self.areas@.len() && #[trigger] area_covers(
                            self.areas@[i],
                            v,
                        ) by {
                        let i = choose|i: int|
                            0 <= i < areas_pre.len() && #[trigger] area_covers(areas_pre[i], v);
                        if i == 0 {
                            assert(area.wf());
                            assert(area.vpn_range.has(v));
                        } else {
                            assert(area_covers(self.areas@[i - 1], v));
                        }
                    };
                    assert forall|v: u64|
                        #[trigger] self.page_table.mapping().contains_key(v) && v
                            != TRAMPOLINE_VPN implies (exists|i: int|
                        0 <= i < self.areas@.len() && #[trigger] area_covers(self.areas@[i], v))
                        || (exists|j: int|
                        0 <= j < kept@.len() && #[trigger] area_covers(kept@[j], v)) by {
                        if exists|i: int|
                            0 <= i < areas_pre.len() && #[trigger] area_covers(areas_pre[i], v) {
                            let i = choose|i: int|
                                0 <= i < areas_pre.len() && #[trigger] area_covers(
                                    areas_pre[i],
                                    v,
                                );
                            if i == 0 {
                                assert(area_covers(kept@[kept_pre.len() as int], v));
                            } else {
                                assert(area_covers(self.areas@[i - 1], v));
                            }
                        } else {
                            let j = choose|j: int|
                                0 <= j < kept_pre.len() && #[trigger] area_covers(
                                    kept_pre[j],
                                    v,
                                );
                            assert(area_covers(kept@[j], v));
                        }
                    };
                    let ghost p = n - areas_pre.len();
                    assert(area == ms0.areas@[p]);
                    assert forall|q: u64|
                        fa.is_free(q) == (fa0.is_free(q) || exists|i: int|
                            0 <= i < n - self.areas@.len() && #[trigger] ms0.areas@[i].owns_frame_in(
                                target.start.0,
                                target.end.0,
                                q,
                            )) by {
                        if exists|i: int|
                            0 <= i < n - self.areas@.len() && #[trigger] ms0.areas@[i].owns_frame_in(
                                target.start.0,
                                target.end.0,
                                q,
                            ) {
                            let i = choose|i: int|
                                0 <= i < n - self.areas@.len()
                                    && #[trigger] ms0.areas@[i].owns_frame_in(
                                    target.start.0,
                                    target.end.0,
                                    q,
                                );
                            if i == p {
                                let k = choose|k: u64|
                                    #[trigger] area.frames().contains_key(k) && target.start.0
                                        <= k < target.end.0 && area.frames()[k] == q;
                                assert(area.wf());
                                assert(area.vpn_range.has(k));
                                assert(!rem.has(k));
                                assert(false);
                            }
                        }
                        if exists|i: int|
                            0 <= i < p && #[trigger] ms0.areas@[i].owns_frame_in(
                                target.start.0,
                                target.end.0,
                                q,
                            ) {
                            let i = choose|i: int|
                                0 <= i < p && #[trigger] ms0.areas@[i].owns_frame_in(
                                    target.start.0,
                                    target.end.0,
                                    q,
                                );
                        }
                    };
                    assert forall|i: int, v: u64|
                        #![trigger ms0.areas@[i].vpn_range.has(v)]
                        0 <= i < n - self.areas@.len() && ms0.areas@[i].vpn_range.has(v)
                            && !target.has(v) implies exists|j: int|
                        0 <= j < kept@.len() && (#[trigger] kept@[j].vpn_range.has(v))
                            && kept@[j].map_type == ms0.areas@[i].map_type
                            && kept@[j].map_permission == ms0.areas@[i].map_permission && (
                        ms0.areas@[i].frames().contains_key(v) ==> kept@[j].frames().contains_key(
                            v,
                        ) && kept@[j].frames()[v] == ms0.areas@[i].frames()[v]) by {
                        if i == p {
                            assert(kept@[kept_pre.len() as int] == area);
                            assert(kept@[kept_pre.len() as int].vpn_range.has(v));
                        } else {
                            let j = choose|j: int|
                                0 <= j < kept_pre.len() && (#[trigger] kept_pre[j].vpn_range.has(
                                    v,
                                )) && kept_pre[j].map_type == ms0.areas@[i].map_type
                                    && kept_pre[j].map_permission == ms0.areas@[i].map_permission
                                    && (ms0.areas@[i].frames().contains_key(v)
                                    ==> kept_pre[j].frames().contains_key(v)
                                    && kept_pre[j].frames()[v] == ms0.areas@[i].frames()[v]);
                            assert(kept@[j] == kept_pre[j]);
                        }
                    };
                }
            } else {
                let (larea, rarea0) = area.split(l.get_end());
                let (mut marea, rarea) = rarea0.split(rem.get_end());
                proof {
                    assert(rem.len_spec() > 0);
                    assert forall|v: u64|
                        marea.vpn_range.has(v) == (area.vpn_range.has(v) && target.has(v)) by {
                        assert(rem.has(v) == (area.vpn_range.has(v) && target.has(v)));
                    };
                    assert forall|v: u64|
                        larea.vpn_range.has(v) == (area.vpn_range.has(v) && v
                            < rem.start.0) by {};
                    assert forall|v: u64|
                        rarea.vpn_range.has(v) == (area.vpn_range.has(v) && v >= rem.end.0) by {};
                    assert forall|k: u64|
                        larea.frames().contains_key(k) == (area.frames().contains_key(k) && k
                            < rem.start.0) by {};
                    assert forall|k: u64|
                        marea.frames().contains_key(k) == (area.frames().contains_key(k)
                            && rem.start.0 <= k < rem.end.0) by {};
                    assert forall|k: u64|
                        rarea.frames().contains_key(k) == (area.frames().contains_key(k) && k
                            >= rem.end.0) by {};
                    assert(area.frames_ok(*fa));
                    assert(larea.frames_ok(*fa)) by {
                        assert forall|k: u64|
                            #[trigger] larea.frames().contains_key(k) implies fa.allocated(
                            larea.frames()[k],
                        ) by {
                            assert(area.frames().contains_key(k));
                        };
                    };
                    assert(marea.frames_ok(*fa)) by {
                        assert forall|k: u64|
                            #[trigger] marea.frames().contains_key(k) implies fa.allocated(
                            marea.frames()[k],
                        ) by {
                            assert(area.frames().contains_key(k));
                        };
                    };
                    assert(rarea.frames_ok(*fa)) by {
                        assert forall|k: u64|
                            #[trigger] rarea.frames().contains_key(k) implies fa.allocated(
                            rarea.frames()[k],
                        ) by {
                            assert(area.frames().contains_key(k));
                        };
                    };
                    assert forall|q: u64| #[trigger] larea.owns_frame(q) implies area.owns_frame(
                        q,
                    ) && !marea.owns_frame(q) && !rarea.owns_frame(q) by {
                        let k = choose|k: u64|
                            #[trigger] larea.frames().contains_key(k) && larea.frames()[k] == q;
                        assert(area.frames().contains_key(k) && area.frames()[k] == q);
                        if marea.owns_frame(q) {
                            let k2 = choose|k2: u64|
                                #[trigger] marea.frames().contains_key(k2) && marea.frames()[k2]
                                    == q;
                            assert(area.frames()[k2] == q);
                        }
                        if rarea.owns_frame(q) {
                            let k2 = choose|k2: u64|
                                #[trigger] rarea.frames().contains_key(k2) && rarea.frames()[k2]
                                    == q;
                            assert(area.frames()[k2] == q);
                        }
                    };
                    assert forall|q: u64| #[trigger] rarea.owns_frame(q) implies area.owns_frame(
                        q,
                    ) && !marea.owns_frame(q) by {
                        let k = choose|k: u64|
                            #[trigger] rarea.frames().contains_key(k) && rarea.frames()[k] == q;
                        assert(area.frames().contains_key(k) && area.frames()[k] == q);
                        if marea.owns_frame(q) {
                            let k2 = choose|k2: u64|
                                #[trigger] marea.frames().contains_key(k2) && marea.frames()[k2]
                                    == q;
                            assert(area.frames()[k2] == q);
                        }
                    };
                    assert forall|q: u64| #[trigger] marea.owns_frame(q) implies area.owns_frame(
                        q,
                    ) by {
                        let k = choose|k: u64|
                            #[trigger] marea.frames().contains_key(k) && marea.frames()[k] == q;
                        assert(area.frames().contains_key(k) && area.frames()[k] == q);
                    };
                }
                let ghost kept_mid0 = kept@;
                if !larea.get_vpn_range().is_empty() {
                    kept.push(larea);
                }
                let ghost kept_mid = kept@;
                if !rarea.get_vpn_range().is_empty() {
                    kept.push(rarea);
                }
                let ghost fa_mid = *fa;
                let ghost pt_mid = self.page_table;
                let ghost marea0 = marea;
                match marea.unmap(&mut self.page_table, fa) {
                    Ok(()) => {},
                    Err(_) => {
                        proof {
                            assert(false);
                        }
                    },
                }
                proof {
                    assert forall|q: u64|
                        !marea0.owns_frame(q) implies fa.allocated(q) == fa_mid.allocated(q) by {};
                    assert forall|j: int|
                        0 <= j < kept@.len() implies (#[trigger] kept@[j]).frames_ok(*fa) by {
                        assert forall|k: u64|
                            #[trigger] kept@[j].frames().contains_key(k) implies fa.allocated(
                            kept@[j].frames()[k],
                        ) by {
                            assert(kept@[j].owns_frame(kept@[j].frames()[k]));
                            assert(!marea0.owns_frame(kept@[j].frames()[k]));
                            assert(fa_mid.allocated(kept@[j].frames()[k]));
                        };
                    };
                    assert forall|i: int|
                        0 <= i < self.areas@.len() implies (#[trigger] self.areas@[i]).frames_ok(
                        *fa,
                    ) by {
                        assert(self.areas@[i] == areas_pre[i + 1]);
                        assert forall|k: u64|
                            #[trigger] self.areas@[i].frames().contains_key(k) implies fa.allocated(
                            self.areas@[i].frames()[k],
                        ) by {
                            let q = self.areas@[i].frames()[k];
                            assert(self.areas@[i].owns_frame(q));
                            if marea0.owns_frame(q) {
                                assert(area.owns_frame(q));
                            }
                            assert(!marea0.owns_frame(q));
                            assert(fa_mid.allocated(q));
                        };
                    };
                    assert(self.page_table.frames_ok(*fa)) by {
                        assert forall|k: u64|
                            #[trigger] self.page_table.dir1@.contains_key(k) implies fa.allocated(
                            self.page_table.dir1@[k],
                        ) by {
                            let q = self.page_table.dir1@[k];
                            if marea0.owns_frame(q) {
                                assert(area.owns_frame(q));
                                assert(pt_pre.owns(q));
                            }
                        };
                        assert forall|k: u64|
                            #[trigger] self.page_table.dir0@.contains_key(k) implies fa.allocated(
                            self.page_table.dir0@[k],
                        ) by {
                            let q = self.page_table.dir0@[k];
                            if marea0.owns_frame(q) {
                                assert(area.owns_frame(q));
                                assert(pt_pre.owns(q));
                            }
                        };
                        if marea0.owns_frame(self.page_table.root_ppn) {
                            assert(area.owns_frame(self.page_table.root_ppn));
                            assert(pt_pre.owns(self.page_table.root_ppn));
                        }
                    };
                    assert forall|v: u64|
                        target.has(v) && (#[trigger] self.page_table.mapping().contains_key(
                            v,
                        )) implies exists|i: int|
                        0 <= i < self.areas@.len() && #[trigger] area_covers(
                            self.areas@[i],
                            v,
                        ) by {
                        assert(pt_mid.mapping().contains_key(v));
                        let i = choose|i: int|
                            0 <= i < areas_pre.len() && #[trigger] area_covers(areas_pre[i], v);
                        if i == 0 {
                            assert(area.wf());
                            assert(area.vpn_range.has(v));
                            assert(marea0.vpn_range.has(v));
                            assert(!self.page_table.mapping().contains_key(v));
                        } else {
                            assert(area_covers(self.areas@[i - 1], v));
                        }
                    };
                    assert forall|v: u64|
                        #[trigger] self.page_table.mapping().contains_key(v) && v
                            != TRAMPOLINE_VPN implies (exists|i: int|
                        0 <= i < self.areas@.len() && #[trigger] area_covers(self.areas@[i], v))
                        || (exists|j: int|
                        0 <= j < kept@.len() && #[trigger] area_covers(kept@[j], v)) by {
                        assert(pt_mid.mapping().contains_key(v));
                        if exists|i: int|
                            0 <= i < areas_pre.len() && #[trigger] area_covers(areas_pre[i], v) {
                            let i = choose|i: int|
                                0 <= i < areas_pre.len() && #[trigger] area_covers(
                                    areas_pre[i],
                                    v,
                                );
                            if i == 0 {
                                assert(area.wf());
                                assert(!marea0.vpn_range.has(v));
                                assert(area.vpn_range.has(v));
                                if v < rem.start.0 {
                                    assert(area_covers(larea, v));
                                    assert(larea.wf());
                                    assert(larea.vpn_range.has(v));
                                    assert(larea.vpn_range.len_spec() > 0);
                                    assert(kept_mid[kept_mid0.len() as int] == larea);
                                    assert(area_covers(kept@[kept_mid0.len() as int], v));
                                } else {
                                    assert(v >= rem.end.0);
                                    assert(area_covers(rarea, v));
                                    assert(rarea.wf());
                                    assert(rarea.vpn_range.has(v));
                                    assert(kept@[kept_mid.len() as int] == rarea);
                                    assert(area_covers(kept@[kept_mid.len() as int], v));
                                }
                            } else {
                                assert(area_covers(self.areas@[i - 1], v));
                            }
                        } else {
                            let j = choose|j: int|
                                0 <= j < kept_pre.len() && #[trigger] area_covers(
                                    kept_pre[j],
                                    v,
                                );
                            assert(area_covers(kept@[j], v));
                        }
                    };
                    assert forall|j: int, v: u64|
                        0 <= j < kept@.len() && #[trigger] area_covers(kept@[j], v)
                            implies self.page_table.mapping().contains_key(v)
                        && self.page_table.mapping()[v] == area_entry(kept@[j], v) by {
                        if j < kept_pre.len() {
                            assert(area_covers(kept_pre[j], v));
                            assert(!target.has(v));
                            assert(!marea0.vpn_range.has(v));
                        } else {
                            let part = kept@[j];
                            assert(part == larea || part == rarea);
                            assert(part.wf());
                            assert(part.vpn_range.has(v));
                            assert(!marea0.vpn_range.has(v));
                            assert(area_covers(area, v));
                            assert(pt_pre.mapping().contains_key(v));
                            assert(pt_pre.mapping()[v] == area_entry(area, v));
                            assert(area_entry(part, v) == area_entry(area, v));
                        }
                    };
                    assert forall|i: int, v: u64|
                        0 <= i < self.areas@.len() && #[trigger] area_covers(self.areas@[i], v)
                            implies self.page_table.mapping().contains_key(v)
                        && self.page_table.mapping()[v] == area_entry(self.areas@[i], v) by {
                        assert(self.areas@[i] == areas_pre[i + 1]);
                        assert(area_covers(areas_pre[i + 1], v));
                        assert(pt_pre.mapping().contains_key(v));
                        assert(self.areas@[i].wf());
                        assert(self.areas@[i].vpn_range.has(v));
                        assert(!area.vpn_range.has(v) || i + 1 == 0);
                        assert(!marea0.vpn_range.has(v));
                    };
                    let ghost p = n - areas_pre.len();
                    assert(area == ms0.areas@[p]);
                    assert forall|q: u64|
                        marea0.owns_frame(q) == ms0.areas@[p].owns_frame_in(
                            target.start.0,
                            target.end.0,
                            q,
                        ) by {
                        if marea0.owns_frame(q) {
                            let k = choose|k: u64|
                                #[trigger] marea0.frames().contains_key(k) && marea0.frames()[k]
                                    == q;
                            assert(area.frames().contains_key(k) && rem.start.0 <= k
                                < rem.end.0);
                            assert(area.wf());
                            assert(area.vpn_range.has(k));
                            assert(rem.has(k));
                            assert(target.has(k));
                            assert(ms0.areas@[p].owns_frame_in(target.start.0, target.end.0, q));
                        }
                        if ms0.areas@[p].owns_frame_in(target.start.0, target.end.0, q) {
                            let k = choose|k: u64|
                                #[trigger] area.frames().contains_key(k) && target.start.0 <= k
                                    < target.end.0 && area.frames()[k] == q;
                            assert(area.wf());
                            assert(area.vpn_range.has(k));
                            assert(rem.has(k));
                            assert(marea0.frames().contains_key(k));
                            assert(marea0.frames()[k] == q);
                        }
                    };
                    assert forall|q: u64|
                        fa.is_free(q) == (fa0.is_free(q) || exists|i: int|
                            0 <= i < n - self.areas@.len() && #[trigger] ms0.areas@[i].owns_frame_in(
                                target.start.0,
                                target.end.0,
                                q,
                            )) by {
                        assert(fa.is_free(q) == (fa_mid.is_free(q) || marea0.owns_frame(q)));
                        if exists|i: int|
                            0 <= i < p && #[trigger] ms0.areas@[i].owns_frame_in(
                                target.start.0,
                                target.end.0,
                                q,
                            ) {
                            let i = choose|i: int|
                                0 <= i < p && #[trigger] ms0.areas@[i].owns_frame_in(
                                    target.start.0,
                                    target.end.0,
                                    q,
                                );
                        }
                        if exists|i: int|
                            0 <= i < n - self.areas@.len() && #[trigger] ms0.areas@[i].owns_frame_in(
                                target.start.0,
                                target.end.0,
                                q,
                            ) {
                            let i = choose|i: int|
                                0 <= i < n - self.areas@.len()
                                    && #[trigger] ms0.areas@[i].owns_frame_in(
                                    target.start.0,
                                    target.end.0,
                                    q,
                                );
                            if i == p {
                                assert(marea0.owns_frame(q));
                            }
                        }
                    };
                    assert forall|i: int, v: u64|
                        #![trigger ms0.areas@[i].vpn_range.has(v)]
                        0 <= i < n - self.areas@.len() && ms0.areas@[i].vpn_range.has(v)
                            && !target.has(v) implies exists|j: int|
                        0 <= j < kept@.len() && (#[trigger] kept@[j].vpn_range.has(v))
                            && kept@[j].map_type == ms0.areas@[i].map_type
                            && kept@[j].map_permission == ms0.areas@[i].map_permission && (
                        ms0.areas@[i].frames().contains_key(v) ==> kept@[j].frames().contains_key(
                            v,
                        ) && kept@[j].frames()[v] == ms0.areas@[i].frames()[v]) by {
                        if i == p {
                            assert(area.vpn_range.has(v));
                            assert(!rem.has(v));
                            if v < rem.start.0 {
                                assert(larea.vpn_range.has(v));
                                assert(larea.vpn_range.len_spec() > 0);
                                assert(kept@[kept_mid0.len() as int] == larea);
                                if area.frames().contains_key(v) {
                                    assert(larea.frames().contains_key(v));
                                }
                            } else {
                                assert(v >= rem.end.0);
                                assert(rarea.vpn_range.has(v));
                                assert(rarea.vpn_range.len_spec() > 0);
                                assert(kept@[kept_mid.len() as int] == rarea);
                                if area.frames().contains_key(v) {
                                    assert(rarea.frames().contains_key(v));
                                }
                            }
                        } else {
                            let j = choose|j: int|
                                0 <= j < kept_pre.len() && (#[trigger] kept_pre[j].vpn_range.has(
                                    v,
                                )) && kept_pre[j].map_type == ms0.areas@[i].map_type
                                    && kept_pre[j].map_permission == ms0.areas@[i].map_permission
                                    && (ms0.areas@[i].frames().contains_key(v)
                                    ==> kept_pre[j].frames().contains_key(v)
                                    && kept_pre[j].frames()[v] == ms0.areas@[i].frames()[v]);
                            assert(kept@[j] == kept_pre[j]);
                        }
                    };
                }
            }
        }
        self.areas = kept;
        proof {
            assert forall|v: u64| target.has(v) implies !self.page_table.mapping().contains_key(
                v,
            ) by {
                if self.page_table.mapping().contains_key(v) {
                    assert(v != TRAMPOLINE_VPN);
                }
            };
        }
        Ok(())
    }

    /// Insert a framed region over `[start_va, end_va)` and make it resident
    /// at once: every page of the range receives a frame immediately.  If a
    /// frame or directory cannot be had, everything taken is given back.
    #[verifier::rlimit(100)]
    #[verifier::spinoff_prover]
    pub fn insert_framed_area(
        &mut self,
        fa: &mut FrameAllocator,
        start_va: VirtAddr,
        end_va: VirtAddr,
        permission: MapPermission,
    ) -> (r: MMResult<()>)
        requires
            old(self).wf(),
            old(fa).wf(),
            old(self).frames_ok(*old(fa)),
            start_va.0 <= end_va.0,
            end_va.wf(),
            permission.wf(),
            !page_span(start_va, end_va).has(TRAMPOLINE_VPN),
        ensures
            final(self).wf(),
            final(fa).wf(),
            final(fa).same_pool(*old(fa)),
            final(self).frames_ok(*final(fa)),
            final(self).trampoline == old(self).trampoline,
            forall|q: u64| old(fa).allocated(q) ==> final(fa).allocated(q),
            final(fa).free_count() >= old(fa).free_count() - 3 * page_span(
                start_va,
                end_va,
            ).len_spec(),
            span_overlaps(*old(self), start_va, end_va) ==> r == Err::<(), MMError>(
                MMError::AreaError(AreaError::ContainMapped),
            ) && *final(self) == *old(self) && *final(fa) == *old(fa),
            !span_overlaps(*old(self), start_va, end_va) && old(fa).free_count() >= 3 * page_span(
                start_va,
                end_va,
            ).len_spec() ==> r.is_ok(),
            r.is_ok() ==> {
                &&& final(self).areas@.len() == old(self).areas@.len() + 1
                &&& forall|i: int|
                    0 <= i < old(self).areas@.len() ==> final(self).areas@[i] == old(self).areas@[i]
                &&& final(self).areas@.last().vpn_range == page_span(start_va, end_va)
                &&& final(self).areas@.last().map_type == MapType::Framed
                &&& final(self).areas@.last().map_permission == permission
                &&& forall|v: u64|
                    final(self).areas@.last().frames().contains_key(v) == page_span(
                        start_va,
                        end_va,
                    ).has(v)
                &&& forall|v: u64|
                    final(self).page_table.mapping().contains_key(v) == (old(self).page_table.mapping().contains_key(v) || page_span(start_va, end_va).has(v))
                &&& forall|v: u64|
                    #[trigger] old(self).page_table.mapping().contains_key(v) ==> final(self).page_table.mapping()[v] == old(self).page_table.mapping()[v]
            },
            r.is_err() ==> {
                &&& final(self).areas@ == old(self).areas@
                &&& forall|v: u64|
                    final(self).page_table.mapping().contains_key(v) == old(self).page_table.mapping().contains_key(v)
                &&& forall|v: u64|
                    #[trigger] old(self).page_table.mapping().contains_key(v) ==> final(self).page_table.mapping()[v] == old(self).page_table.mapping()[v]
            },
    {
        let mut area = MapArea::new(start_va, end_va, MapType::Framed, permission);
        let range = area.get_vpn_range();
        let overlapping = self.is_mapped(range);
        proof {
            assert(overlapping == span_overlaps(*old(self), start_va, end_va)) by {
                if overlapping {
                    let (i, v) = choose|i: int, v: u64|
                        0 <= i < self.areas@.len() && (#[trigger] self.areas@[i].vpn_range.has(v))
                            && range.has(v);
                    assert(old(self).areas@[i].vpn_range.has(v) && page_span(
                        start_va,
                        end_va,
                    ).has(v));
                }
                if span_overlaps(*old(self), start_va, end_va) {
                    let (i, v) = choose|i: int, v: u64|
                        0 <= i < old(self).areas@.len() && (
                        #[trigger] old(self).areas@[i].vpn_range.has(v)) && page_span(
                            start_va,
                            end_va,
                        ).has(v);
                    assert(self.areas@[i].vpn_range.has(v) && range.has(v));
                }
            };
        }
        if overlapping {
            return Err(MMError::AreaError(AreaError::ContainMapped));
        }
        let ghost self0 = *self;
        let ghost fa0 = *fa;
        let ghost area0 = area;
        proof {
            assert forall|i: int, v: u64|
                #![trigger self0.areas@[i].vpn_range.has(v)]
                0 <= i < self0.areas@.len() implies !(self0.areas@[i].vpn_range.has(v)
                && page_span(start_va, end_va).has(v)) by {};
            self0.lemma_span_unmapped(area.vpn_range);
        }
        match area.check_all_page(&mut self.page_table, fa) {
            Ok(()) => {},
            Err(e) => {
                let ghost fa_mid = *fa;
                let ghost area_mid = area;
                let ghost pt_mid = self.page_table;
                match area.unmap(&mut self.page_table, fa) {
                    Ok(()) => {},
                    Err(_) => {
                        proof {
                            assert(false);
                        }
                    },
                }
                proof {
                    assert forall|v: u64|
                        self.page_table.mapping().contains_key(v)
                            == self0.page_table.mapping().contains_key(v) by {
                        if area0.vpn_range.has(v) {
                            assert(!self0.page_table.mapping().contains_key(v));
                            assert(!self.page_table.mapping().contains_key(v));
                        } else {
                            assert(self.page_table.mapping().contains_key(v)
                                == pt_mid.mapping().contains_key(v));
                            assert(!(area_mid.frames().contains_key(v)
                                && !area0.frames().contains_key(v)));
                            assert(pt_mid.mapping().contains_key(v)
                                == self0.page_table.mapping().contains_key(v));
                        }
                    };
                    assert forall|v: u64|
                        #[trigger] self0.page_table.mapping().contains_key(v) implies self.page_table.mapping()[v]
                        == self0.page_table.mapping()[v] by {
                        assert(!area0.vpn_range.has(v));
                        assert(!(area_mid.frames().contains_key(v)
                            && !area0.frames().contains_key(v)));
                        assert(self.page_table.mapping()[v] == pt_mid.mapping()[v]);
                        assert(pt_mid.mapping()[v] == self0.page_table.mapping()[v]);
                    };
                    assert forall|v: u64|
                        #[trigger] self.page_table.mapping().contains_key(v) implies v
                        == TRAMPOLINE_VPN || exists|i: int|
                        0 <= i < self.areas@.len() && #[trigger] area_covers(
                            self.areas@[i],
                            v,
                        ) by {
                        assert(self0.page_table.mapping().contains_key(v));
                        if v != TRAMPOLINE_VPN {
                            let i = choose|i: int|
                                0 <= i < self0.areas@.len() && #[trigger] area_covers(
                                    self0.areas@[i],
                                    v,
                                );
                            assert(area_covers(self.areas@[i], v));
                        }
                    };
                    assert forall|i: int, v: u64|
                        0 <= i < self.areas@.len() && #[trigger] area_covers(
                            self.areas@[i],
                            v,
                        ) implies self.page_table.mapping().contains_key(v)
                        && self.page_table.mapping()[v] == area_entry(self.areas@[i], v) by {
                        assert(area_covers(self0.areas@[i], v));
                        assert(self0.page_table.mapping().contains_key(v));
                        assert(self0.page_table.mapping()[v] == area_entry(self0.areas@[i], v));
                    };
                    assert forall|i: int, q: u64|
                        0 <= i < self.areas@.len() && (#[trigger] self.areas@[i].owns_frame(
                            q,
                        )) implies !self.page_table.owns(q) by {
                        lemma_area_frames_not_pt_owned(
                            self0.areas@[i],
                            self0.page_table,
                            self.page_table,
                            fa0,
                        );
                    };
                    assert forall|i: int|
                        0 <= i < self.areas@.len() implies (#[trigger] self.areas@[i]).frames_ok(
                        *fa,
                    ) by {
                        assert(self.areas@[i].frames_ok(fa_mid));
                        assert forall|k: u64|
                            #[trigger] self.areas@[i].frames().contains_key(k) implies fa.allocated(
                            self.areas@[i].frames()[k],
                        ) by {
                            let q = self.areas@[i].frames()[k];
                            assert(fa_mid.allocated(q));
                            if area_mid.owns_frame(q) {
                                assert(fa0.is_free(q));
                                assert(fa0.allocated(q));
                            }
                        };
                    };
                    assert(self.page_table.frames_ok(*fa)) by {
                        assert forall|k: u64|
                            #[trigger] self.page_table.dir1@.contains_key(k) implies fa.allocated(
                            self.page_table.dir1@[k],
                        ) by {
                            let q = self.page_table.dir1@[k];
                            assert(fa_mid.allocated(q));
                            if area_mid.owns_frame(q) {
                                assert(!self.page_table.owns(q));
                            }
                        };
                        assert forall|k: u64|
                            #[trigger] self.page_table.dir0@.contains_key(k) implies fa.allocated(
                            self.page_table.dir0@[k],
                        ) by {
                            let q = self.page_table.dir0@[k];
                            assert(fa_mid.allocated(q));
                            if area_mid.owns_frame(q) {
                                assert(!self.page_table.owns(q));
                            }
                        };
                        if area_mid.owns_frame(self.page_table.root_ppn) {
                            assert(!self.page_table.owns(self.page_table.root_ppn));
                        }
                    };
                }
                return Err(e);
            },
        }
        let ghost fa1 = *fa;
        let ghost area1 = area;
        self.areas.push(area);
        proof {
            assert(self.areas@ == self0.areas@.push(area1));
            let n = self0.areas@.len() as int;
            assert forall|v: u64|
                area1.frames().contains_key(v) == area1.vpn_range.has(v) by {};
            assert forall|v: u64|
                #[trigger] self.page_table.mapping().contains_key(v) implies v == TRAMPOLINE_VPN
                || exists|i: int|
                0 <= i < self.areas@.len() && #[trigger] area_covers(self.areas@[i], v) by {
                if v != TRAMPOLINE_VPN {
                    if self0.page_table.mapping().contains_key(v) {
                        let i = choose|i: int|
                            0 <= i < self0.areas@.len() && #[trigger] area_covers(
                                self0.areas@[i],
                                v,
                            );
                        assert(area_covers(self.areas@[i], v));
                    } else {
                        assert(area1.frames().contains_key(v));
                        assert(area_covers(self.areas@[n], v));
                    }
                }
            };
            assert forall|i: int, v: u64|
                0 <= i < self.areas@.len() && #[trigger] area_covers(
                    self.areas@[i],
                    v,
                ) implies self.page_table.mapping().contains_key(v) && self.page_table.mapping()[v]
                == area_entry(self.areas@[i], v) by {
                if i < n {
                    assert(area_covers(self0.areas@[i], v));
                    assert(self0.page_table.mapping().contains_key(v));
                    assert(self0.page_table.mapping()[v] == area_entry(self0.areas@[i], v));
                    assert(!area0.frames().contains_key(v));
                } else {
                    assert(self.areas@[i] == area1);
                    assert(area1.frames().contains_key(v));
                    assert(!area0.frames().contains_key(v));
                }
            };
            assert forall|i: int, q: u64|
                0 <= i < self.areas@.len() && (#[trigger] self.areas@[i].owns_frame(q)) implies !self.page_table.owns(
                q,
            ) by {
                if i < n {
                    lemma_area_frames_not_pt_owned(
                        self0.areas@[i],
                        self0.page_table,
                        self.page_table,
                        fa0,
                    );
                } else {
                    let k = choose|k: u64|
                        #[trigger] area1.frames().contains_key(k) && area1.frames()[k] == q;
                    assert(!area0.frames().contains_key(k));
                    assert(!self.page_table.owns(q));
                }
            };
            assert forall|i: int, j: int, q: u64|
                #![trigger self.areas@[i].owns_frame(q), self.areas@[j].owns_frame(q)]
                0 <= i < self.areas@.len() && 0 <= j < self.areas@.len() && i != j
                    && self.areas@[i].owns_frame(q) implies !self.areas@[j].owns_frame(q) by {
                if i == n || j == n {
                    let a = if i == n { j } else { i };
                    if self.areas@[n].owns_frame(q) && self.areas@[a].owns_frame(q) {
                        let k = choose|k: u64|
                            #[trigger] area1.frames().contains_key(k) && area1.frames()[k] == q;
                        assert(!area0.frames().contains_key(k));
                        assert(fa0.is_free(q));
                        assert(self0.areas@[a].owns_frame(q));
                        let k2 = choose|k2: u64|
                            #[trigger] self0.areas@[a].frames().contains_key(k2)
                                && self0.areas@[a].frames()[k2] == q;
                        assert(fa0.allocated(q));
                    }
                }
            };
        }
        Ok(())
    }

    /// Look up the table entry of `vpn`, first forcing that single page
    /// resident if a lazy region owns it (the fault-style completion path).
    /// Fails with `NotInclude` when no region owns the page.
    #[verifier::rlimit(100)]
    #[verifier::spinoff_prover]
    pub fn transform(&mut self, fa: &mut FrameAllocator, vpn: VirtPageNum) -> (r: MMResult<
        PageTableEntry,
    >)
        requires
            old(self).wf(),
            old(fa).wf(),
            old(self).frames_ok(*old(fa)),
        ensures
            final(self).wf(),
            final(fa).wf(),
            final(fa).same_pool(*old(fa)),
            final(self).frames_ok(*final(fa)),
            final(self).trampoline == old(self).trampoline,
            forall|q: u64| old(fa).allocated(q) ==> final(fa).allocated(q),
            final(self).areas@.len() == old(self).areas@.len(),
            forall|j: int|
                0 <= j < old(self).areas@.len() ==> (#[trigger] final(self).areas@[j]).vpn_range
                    == old(self).areas@[j].vpn_range && final(self).areas@[j].map_type == old(self).areas@[j].map_type && final(self).areas@[j].map_permission == old(self).areas@[j].map_permission,
            forall|v: u64|
                #[trigger] old(self).page_table.mapping().contains_key(v) ==> final(self).page_table.mapping().contains_key(v) && final(self).page_table.mapping()[v]
                    == old(self).page_table.mapping()[v],
            (r == Err::<PageTableEntry, MMError>(MMError::AreaError(AreaError::NotInclude)))
                <==> !old(self).page_in_some_area(vpn.0),
            !old(self).page_in_some_area(vpn.0) ==> *final(self) == *old(self) && *final(fa)
                == *old(fa),
            old(self).page_in_some_area(vpn.0) && old(fa).free_count() >= 3 ==> r.is_ok(),
            r.is_ok() ==> final(self).page_table.mapping().contains_key(vpn.0) && r == Ok::<
                PageTableEntry,
                MMError,
            >(final(self).page_table.mapping()[vpn.0]),
    {
        let n = self.areas.len();
        let mut idx: usize = n;
        let mut i: usize = 0;
        while i < n
            invariant
                self.wf(),
                n == self.areas@.len(),
                i <= n,
                idx == n || (idx < n && self.areas@[idx as int].vpn_range.has(vpn.0)),
                idx == n ==> forall|j: int|
                    0 <= j < i ==> !(#[trigger] self.areas@[j]).vpn_range.has(vpn.0),
            decreases n - i,
        {
            if idx == n && self.areas[i].get_vpn_range().is_contains(vpn) {
                idx = i;
            }
            i = i + 1;
        }
        if idx == n {
            proof {
                assert(!self.page_in_some_area(vpn.0));
            }
            return Err(MMError::AreaError(AreaError::NotInclude));
        }
        let i = idx;
        let ghost self0 = *self;
        let ghost fa0 = *fa;
        proof {
            assert(self0.areas@[i as int].vpn_range.has(vpn.0));
            assert(self0.page_in_some_area(vpn.0));
            assert(vpn.0 < u64::MAX) by {
                assert(self0.areas@[i as int].vpn_range.has(vpn.0));
            };
        }
        let sub = VPNRange::new_by_len(vpn, 1);
        let mut area = self.areas.remove(i);
        let ghost area0 = area;
        let fill = area.check_range(&mut self.page_table, fa, sub);
        self.areas.insert(i, area);
        proof {
            assert(self.areas@ =~= self0.areas@.update(i as int, area));
            assert forall|w: u64|
                area.frames().contains_key(w) && !area0.frames().contains_key(w) implies w
                == vpn.0 by {
                assert(area0.vpn_range.has(w) && sub.has(w));
            };
            assert forall|v: u64|
                #[trigger] self.page_table.mapping().contains_key(v) implies v == TRAMPOLINE_VPN
                || exists|j: int|
                0 <= j < self.areas@.len() && #[trigger] area_covers(self.areas@[j], v) by {
                if v != TRAMPOLINE_VPN {
                    if self0.page_table.mapping().contains_key(v) {
                        let j = choose|j: int|
                            0 <= j < self0.areas@.len() && #[trigger] area_covers(
                                self0.areas@[j],
                                v,
                            );
                        if j == i {
                            assert(area_covers(self.areas@[j], v));
                        } else {
                            assert(self.areas@[j] == self0.areas@[j]);
                            assert(area_covers(self.areas@[j], v));
                        }
                    } else {
                        assert(area.frames().contains_key(v) && !area0.frames().contains_key(v));
                        assert(area_covers(self.areas@[i as int], v));
                    }
                }
            };
            assert forall|j: int, v: u64|
                0 <= j < self.areas@.len() && #[trigger] area_covers(
                    self.areas@[j],
                    v,
                ) implies self.page_table.mapping().contains_key(v) && self.page_table.mapping()[v]
                == area_entry(self.areas@[j], v) by {
                if j == i {
                    if area0.frames().contains_key(v) || (area.map_type == MapType::Identical
                        && area.vpn_range.has(v)) {
                        assert(area_covers(self0.areas@[j], v));
                        assert(self0.page_table.mapping().contains_key(v));
                        assert(self0.page_table.mapping()[v] == area_entry(self0.areas@[j], v));
                    } else {
                        assert(area.frames().contains_key(v) && !area0.frames().contains_key(v));
                    }
                } else {
                    assert(self.areas@[j] == self0.areas@[j]);
                    assert(area_covers(self0.areas@[j], v));
                    assert(self0.page_table.mapping().contains_key(v));
                    assert(self0.page_table.mapping()[v] == area_entry(self0.areas@[j], v));
                    if area.frames().contains_key(v) && !area0.frames().contains_key(v) {
                        assert(v == vpn.0);
                        assert(self0.areas@[j].wf());
                        assert(self0.areas@[j].vpn_range.has(v));
                        assert(false);
                    }
                }
            };
            assert forall|j: int, q: u64|
                0 <= j < self.areas@.len() && (#[trigger] self.areas@[j].owns_frame(q)) implies !self.page_table.owns(
                q,
            ) by {
                if j == i {
                    let k = choose|k: u64|
                        #[trigger] area.frames().contains_key(k) && area.frames()[k] == q;
                    if area0.frames().contains_key(k) {
                        lemma_area_frames_not_pt_owned(
                            self0.areas@[j],
                            self0.page_table,
                            self.page_table,
                            fa0,
                        );
                        assert(self0.areas@[j].owns_frame(q));
                    } else {
                        assert(!self.page_table.owns(q));
                    }
                } else {
                    assert(self.areas@[j] == self0.areas@[j]);
                    lemma_area_frames_not_pt_owned(
                        self0.areas@[j],
                        self0.page_table,
                        self.page_table,
                        fa0,
                    );
                    assert(self0.areas@[j].owns_frame(q));
                }
            };
            assert forall|j1: int, j2: int, q: u64|
                #![trigger self.areas@[j1].owns_frame(q), self.areas@[j2].owns_frame(q)]
                0 <= j1 < self.areas@.len() && 0 <= j2 < self.areas@.len() && j1 != j2
                    && self.areas@[j1].owns_frame(q) implies !self.areas@[j2].owns_frame(q) by {
                if self.areas@[j1].owns_frame(q) && self.areas@[j2].owns_frame(q) {
                    let a = if j1 == i {
                        j2
                    } else {
                        j1
                    };
                    let b = if j1 == i {
                        j1
                    } else {
                        j2
                    };
                    if b == i {
                        let k = choose|k: u64|
                            #[trigger] area.frames().contains_key(k) && area.frames()[k] == q;
                        assert(self.areas@[a] == self0.areas@[a]);
                        if area0.frames().contains_key(k) {
                            assert(self0.areas@[i as int].owns_frame(q));
                            assert(!self0.areas@[a].owns_frame(q));
                        } else {
                            assert(fa0.is_free(q));
                            let k2 = choose|k2: u64|
                                #[trigger] self0.areas@[a].frames().contains_key(k2)
                                    && self0.areas@[a].frames()[k2] == q;
                            assert(fa0.allocated(q));
                        }
                    } else {
                        assert(self0.areas@[j1].owns_frame(q));
                        assert(self0.areas@[j2].owns_frame(q));
                    }
                }
            };
        }
        match fill {
            Ok(()) => {},
            Err(e) => {
                return Err(e);
            },
        }
        proof {
            assert(area.frames().contains_key(vpn.0) || area.map_type == MapType::Identical) by {
                if area.map_type == MapType::Framed {
                    assert(area0.vpn_range.has(vpn.0) && sub.has(vpn.0));
                }
            };
            assert(self.page_table.mapping().contains_key(vpn.0)) by {
                assert(area_covers(self.areas@[i as int], vpn.0));
            };
            let v0 = vpn.0;
            assert((v0 >> 9) >> 9 == v0 >> 18) by (bit_vector);
        }
        match self.page_table.translate(vpn.0) {
            Ok(pte) => Ok(pte),
            Err(e) => {
                proof {
                    assert(false);
                }
                Err(e)
            },
        }
    }

    /// Shrink the region starting at `start` so that it ends at `new_end`,
    /// unmapping the pages cut off.  Fails with `NotMatch` when no region
    /// starts there.
    #[verifier::rlimit(100)]
    #[verifier::spinoff_prover]
    pub fn shrink_to(&mut self, fa: &mut FrameAllocator, start: VirtAddr, new_end: VirtAddr) -> (r:
        MMResult<()>)
        requires
            old(self).wf(),
            old(fa).wf(),
            old(self).frames_ok(*old(fa)),
            new_end.wf(),
            forall|j: int|
                0 <= j < old(self).areas@.len() && (#[trigger] old(self).areas@[j]).vpn_range.start.0
                    == start.0 / PAGE_SIZE ==> old(self).areas@[j].vpn_range.start.0 <= page_span(
                    start,
                    new_end,
                ).end.0 <= old(self).areas@[j].vpn_range.end.0,
        ensures
            final(self).wf(),
            final(fa).wf(),
            final(fa).same_pool(*old(fa)),
            final(self).frames_ok(*final(fa)),
            final(self).trampoline == old(self).trampoline,
            r.is_ok() == exists|j: int|
                0 <= j < old(self).areas@.len() && (#[trigger] old(self).areas@[j]).vpn_range.start.0
                    == start.0 / PAGE_SIZE,
            r.is_err() ==> *final(self) == *old(self) && *final(fa) == *old(fa) && r == Err::<
                (),
                MMError,
            >(MMError::AreaError(AreaError::NotMatch)),
            r.is_ok() ==> exists|j: int|
                0 <= j < old(self).areas@.len() && (#[trigger] final(self).areas@[j]).vpn_range
                    == (VPNRange {
                    start: old(self).areas@[j].vpn_range.start,
                    end: page_span(start, new_end).end,
                }) && final(self).areas@ == old(self).areas@.update(j, final(self).areas@[j]) && final(self).areas@[j].map_type == old(self).areas@[j].map_type && final(self).areas@[j].map_permission == old(self).areas@[j].map_permission && final(self).areas@[j].vpn_range.start.0 == start.0 / PAGE_SIZE
                    && (forall|q: u64|
                    final(fa).is_free(q) == (old(fa).is_free(q) || old(self).areas@[j].owns_frame_in(
                        page_span(start, new_end).end.0,
                        old(self).areas@[j].vpn_range.end.0,
                        q,
                    ))) && final(fa).free_count() == old(fa).free_count() + (old(self).areas@[j].data_frames.spec_len()
                    - final(self).areas@[j].data_frames.spec_len()) && (forall|v: u64|
                    page_span(start, new_end).end.0 <= v < old(self).areas@[j].vpn_range.end.0
                        ==> !final(self).page_table.mapping().contains_key(v)),
    {
        let n = self.areas.len();
        let mut idx: usize = n;
        let mut i: usize = 0;
        while i < n
            invariant
                self.wf(),
                n == self.areas@.len(),
                i <= n,
                idx == n || (idx < n && self.areas@[idx as int].vpn_range.start.0 == start.0
                    / PAGE_SIZE),
                idx == n ==> forall|j: int|
                    0 <= j < i ==> (#[trigger] self.areas@[j]).vpn_range.start.0 != start.0
                        / PAGE_SIZE,
            decreases n - i,
        {
            if idx == n && self.areas[i].get_vpn_range().get_start().0 == start.floor().0 {
                idx = i;
            }
            i = i + 1;
        }
        if idx == n {
            return Err(MMError::AreaError(AreaError::NotMatch));
        }
        let i = idx;
        let ghost self0 = *self;
        let ghost fa0 = *fa;
        let to = new_end.ceil();
        let mut area = self.areas.remove(i);
        let ghost area0 = area;
        match area.narrow(&mut self.page_table, fa, to) {
            Ok(()) => {},
            Err(_) => {
                proof {
                    assert(false);
                }
            },
        }
        self.areas.insert(i, area);
        proof {
            assert(self.areas@ =~= self0.areas@.update(i as int, area));
            let cut_lo = to.0;
            let cut_hi = area0.vpn_range.end.0;
            assert(self0.areas@[i as int].vpn_range.start.0 == start.0 / PAGE_SIZE);
            assert forall|v: u64|
                !(cut_lo <= v < cut_hi) implies self.page_table.mapping().contains_key(v)
                == self0.page_table.mapping().contains_key(v) && (
            self0.page_table.mapping().contains_key(v) ==> self.page_table.mapping()[v]
                == self0.page_table.mapping()[v]) by {
                let b0 = self0.page_table.mapping().contains_key(v);
                let b1 = self.page_table.mapping().contains_key(v);
                let x0 = self0.page_table.mapping()[v];
                let x1 = self.page_table.mapping()[v];
            };
            assert forall|v: u64|
                cut_lo <= v < cut_hi implies !self.page_table.mapping().contains_key(v) by {
                let b0 = self0.page_table.mapping().contains_key(v);
                let b1 = self.page_table.mapping().contains_key(v);
            };
            assert forall|j1: int, j2: int, v: u64|
                #![trigger self.areas@[j1].vpn_range.has(v), self.areas@[j2].vpn_range.has(v)]
                0 <= j1 < j2 < self.areas@.len() implies !(self.areas@[j1].vpn_range.has(v)
                && self.areas@[j2].vpn_range.has(v)) by {
                if self.areas@[j1].vpn_range.has(v) && self.areas@[j2].vpn_range.has(v) {
                    assert(self0.areas@[j1].vpn_range.has(v));
                    assert(self0.areas@[j2].vpn_range.has(v));
                }
            };
            assert forall|j1: int, j2: int, q: u64|
                #![trigger self.areas@[j1].owns_frame(q), self.areas@[j2].owns_frame(q)]
                0 <= j1 < self.areas@.len() && 0 <= j2 < self.areas@.len() && j1 != j2
                    && self.areas@[j1].owns_frame(q) implies !self.areas@[j2].owns_frame(q) by {
                if self.areas@[j1].owns_frame(q) && self.areas@[j2].owns_frame(q) {
                    let k1 = choose|k: u64|
                        #[trigger] self.areas@[j1].frames().contains_key(k)
                            && self.areas@[j1].frames()[k] == q;
                    let k2 = choose|k: u64|
                        #[trigger] self.areas@[j2].frames().contains_key(k)
                            && self.areas@[j2].frames()[k] == q;
                    assert(self0.areas@[j1].frames().contains_key(k1)
                        && self0.areas@[j1].frames()[k1] == q);
                    assert(self0.areas@[j2].frames().contains_key(k2)
                        && self0.areas@[j2].frames()[k2] == q);
                    assert(self0.areas@[j1].owns_frame(q));
                    assert(self0.areas@[j2].owns_frame(q));
                }
            };
            assert forall|v: u64|
                #[trigger] self.page_table.mapping().contains_key(v) implies v == TRAMPOLINE_VPN
                || exists|j: int|
                0 <= j < self.areas@.len() && #[trigger] area_covers(self.areas@[j], v) by {
                if v != TRAMPOLINE_VPN {
                    let b0 = self0.page_table.mapping().contains_key(v);
                    let x0 = self0.page_table.mapping()[v];
                    assert(!(cut_lo <= v < cut_hi));
                    assert(self0.page_table.mapping().contains_key(v));
                    let j = choose|j: int|
                        0 <= j < self0.areas@.len() && #[trigger] area_covers(self0.areas@[j], v);
                    if j == i {
                        if area0.map_type == MapType::Framed {
                            assert(area0.frames().contains_key(v));
                            if v < cut_lo {
                                assert(area.frames().contains_key(v));
                                assert(area_covers(self.areas@[j], v));
                            } else {
                                assert(self0.areas@[j].wf());
                                assert(area0.vpn_range.has(v));
                                assert(!self.page_table.mapping().contains_key(v));
                            }
                        } else {
                            assert(area0.vpn_range.has(v));
                            if v < cut_lo {
                                assert(area_covers(self.areas@[j], v));
                            } else {
                                assert(!self.page_table.mapping().contains_key(v));
                            }
                        }
                    } else {
                        assert(self.areas@[j] == self0.areas@[j]);
                        assert(area_covers(self.areas@[j], v));
                    }
                }
            };
            assert forall|j: int, v: u64|
                0 <= j < self.areas@.len() && #[trigger] area_covers(
                    self.areas@[j],
                    v,
                ) implies self.page_table.mapping().contains_key(v) && self.page_table.mapping()[v]
                == area_entry(self.areas@[j], v) by {
                if j == i {
                    assert(area_covers(self0.areas@[j], v));
                    assert(self0.areas@[j].wf());
                    assert(area.wf());
                    assert(area.vpn_range.has(v));
                    assert(!(cut_lo <= v < cut_hi));
                } else {
                    assert(self.areas@[j] == self0.areas@[j]);
                    assert(area_covers(self0.areas@[j], v));
                    assert(self0.areas@[j].wf());
                    assert(self0.areas@[j].vpn_range.has(v));
                    assert(!area0.vpn_range.has(v));
                    assert(!(cut_lo <= v < cut_hi));
                }
            };
            assert forall|j: int, q: u64|
                0 <= j < self.areas@.len() && (#[trigger] self.areas@[j].owns_frame(q)) implies !self.page_table.owns(
                q,
            ) by {
                if j == i {
                    let k = choose|k: u64|
                        #[trigger] area.frames().contains_key(k) && area.frames()[k] == q;
                    assert(area0.frames().contains_key(k) && area0.frames()[k] == q);
                    assert(self0.areas@[j].owns_frame(q));
                } else {
                    assert(self.areas@[j] == self0.areas@[j]);
                    assert(self0.areas@[j].owns_frame(q));
                }
            };
            assert forall|j: int|
                0 <= j < self.areas@.len() implies (#[trigger] self.areas@[j]).frames_ok(*fa) by {
                if j != i {
                    assert(self.areas@[j] == self0.areas@[j]);
                    assert(self0.areas@[j].frames_ok(fa0));
                    assert forall|k: u64|
                        #[trigger] self.areas@[j].frames().contains_key(k) implies fa.allocated(
                        self.areas@[j].frames()[k],
                    ) by {
                        let q = self.areas@[j].frames()[k];
                        assert(fa0.allocated(q));
                        if area0.owns_frame_in(cut_lo, cut_hi, q) {
                            let k2 = choose|k2: u64|
                                #[trigger] area0.frames().contains_key(k2) && cut_lo <= k2 < cut_hi
                                    && area0.frames()[k2] == q;
                            assert(self0.areas@[i as int].owns_frame(q));
                            assert(self0.areas@[j].owns_frame(q));
                        }
                        assert(!area0.owns_frame_in(cut_lo, cut_hi, q));
                    };
                }
            };
            assert(self.page_table.frames_ok(*fa)) by {
                assert forall|k: u64|
                    #[trigger] self.page_table.dir1@.contains_key(k) implies fa.allocated(
                    self.page_table.dir1@[k],
                ) by {
                    let q = self.page_table.dir1@[k];
                    assert(fa0.allocated(q));
                    if area0.owns_frame_in(cut_lo, cut_hi, q) {
                        let k2 = choose|k2: u64|
                            #[trigger] area0.frames().contains_key(k2) && cut_lo <= k2 < cut_hi
                                && area0.frames()[k2] == q;
                        assert(self0.areas@[i as int].owns_frame(q));
                        assert(self0.page_table.owns(q));
                    }
                    assert(!area0.owns_frame_in(cut_lo, cut_hi, q));
                };
                assert forall|k: u64|
                    #[trigger] self.page_table.dir0@.contains_key(k) implies fa.allocated(
                    self.page_table.dir0@[k],
                ) by {
                    let q = self.page_table.dir0@[k];
                    assert(fa0.allocated(q));
                    if area0.owns_frame_in(cut_lo, cut_hi, q) {
                        let k2 = choose|k2: u64|
                            #[trigger] area0.frames().contains_key(k2) && cut_lo <= k2 < cut_hi
                                && area0.frames()[k2] == q;
                        assert(self0.areas@[i as int].owns_frame(q));
                        assert(self0.page_table.owns(q));
                    }
                    assert(!area0.owns_frame_in(cut_lo, cut_hi, q));
                };
                if area0.owns_frame_in(cut_lo, cut_hi, self.page_table.root_ppn) {
                    let q = self.page_table.root_ppn;
                    let k2 = choose|k2: u64|
                        #[trigger] area0.frames().contains_key(k2) && cut_lo <= k2 < cut_hi
                            && area0.frames()[k2] == q;
                    assert(self0.areas@[i as int].owns_frame(q));
                    assert(self0.page_table.owns(q));
                }
            };
            assert(to.0 == page_span(start, new_end).end.0);
            assert(self.areas@[i as int].vpn_range == (VPNRange {
                start: self0.areas@[i as int].vpn_range.start,
                end: page_span(start, new_end).end,
            }));
            assert(self.areas@ == self0.areas@.update(i as int, self.areas@[i as int]));
            assert(self0.areas@[i as int].vpn_range.start.0 <= to.0
                <= self0.areas@[i as int].vpn_range.end.0);
            assert(!(cut_lo <= TRAMPOLINE_VPN < cut_hi)) by {
                if cut_lo <= TRAMPOLINE_VPN < cut_hi {
                    assert(self0.areas@[i as int].wf());
                    assert(self0.areas@[i as int].vpn_range.has(TRAMPOLINE_VPN));
                }
            };
            assert(self.page_table.mapping().contains_key(TRAMPOLINE_VPN)
                == self0.page_table.mapping().contains_key(TRAMPOLINE_VPN)) by {
                let b0 = self0.page_table.mapping().contains_key(TRAMPOLINE_VPN);
                let b1 = self.page_table.mapping().contains_key(TRAMPOLINE_VPN);
                let x0 = self0.page_table.mapping()[TRAMPOLINE_VPN];
                let x1 = self.page_table.mapping()[TRAMPOLINE_VPN];
            };
            if self.trampoline.is_some() {
                assert(self.page_table.mapping()[TRAMPOLINE_VPN]
                    == self0.page_table.mapping()[TRAMPOLINE_VPN]);
            }
            assert forall|j: int|
                0 <= j < self.areas@.len() implies !(#[trigger] self.areas@[j]).vpn_range.has(
                TRAMPOLINE_VPN,
            ) by {
                if self.areas@[j].vpn_range.has(TRAMPOLINE_VPN) {
                    assert(self0.areas@[j].vpn_range.has(TRAMPOLINE_VPN));
                }
            };
        }
        Ok(())
    }

    /// Grow the region starting at `start` so that it ends at `new_end`.
    /// Fails with `NotMatch` when no region starts there.
    #[verifier::rlimit(100)]
    #[verifier::spinoff_prover]
    pub fn append_to(&mut self, fa: &mut FrameAllocator, start: VirtAddr, new_end: VirtAddr) -> (r:
        MMResult<()>)
        requires
            old(self).wf(),
            old(fa).wf(),
            old(self).frames_ok(*old(fa)),
            new_end.wf(),
            forall|j: int|
                0 <= j < old(self).areas@.len() && (#[trigger] old(self).areas@[j]).vpn_range.start.0
                    == start.0 / PAGE_SIZE ==> old(self).areas@[j].vpn_range.end.0 <= page_span(
                    start,
                    new_end,
                ).end.0 && old(self).areas@[j].map_type == MapType::Framed,
            forall|j: int, v: u64|
                #![trigger old(self).areas@[j].vpn_range.has(v)]
                0 <= j < old(self).areas@.len() && old(self).areas@[j].vpn_range.start.0 != start.0
                    / PAGE_SIZE ==> !(old(self).areas@[j].vpn_range.has(v) && start.0 / PAGE_SIZE
                    <= v < page_span(start, new_end).end.0),
            forall|j1: int, j2: int|
                0 <= j1 < j2 < old(self).areas@.len() ==> !((#[trigger] old(self).areas@[j1]).vpn_range.start.0 == start.0 / PAGE_SIZE && (#[trigger] old(self).areas@[j2]).vpn_range.start.0 == start.0 / PAGE_SIZE),
            !(start.0 / PAGE_SIZE <= TRAMPOLINE_VPN < page_span(start, new_end).end.0),
        ensures
            final(self).wf(),
            final(fa).wf(),
            final(fa).same_pool(*old(fa)),
            final(self).frames_ok(*final(fa)),
            final(self).trampoline == old(self).trampoline,
            *final(fa) == *old(fa),
            r.is_ok() == exists|j: int|
                0 <= j < old(self).areas@.len() && (#[trigger] old(self).areas@[j]).vpn_range.start.0
                    == start.0 / PAGE_SIZE,
            r.is_err() ==> *final(self) == *old(self) && r == Err::<(), MMError>(
                MMError::AreaError(AreaError::NotMatch),
            ),
            r.is_ok() ==> exists|j: int|
                0 <= j < old(self).areas@.len() && (#[trigger] final(self).areas@[j]).vpn_range
                    == (VPNRange {
                    start: old(self).areas@[j].vpn_range.start,
                    end: page_span(start, new_end).end,
                }) && final(self).areas@ == old(self).areas@.update(j, final(self).areas@[j]) && final(self).areas@[j].map_type == old(self).areas@[j].map_type && final(self).areas@[j].map_permission == old(self).areas@[j].map_permission && final(self).areas@[j].vpn_range.start.0 == start.0 / PAGE_SIZE,
    {
        let n = self.areas.len();
        let mut idx: usize = n;
        let mut i: usize = 0;
        while i < n
            invariant
                self.wf(),
                n == self.areas@.len(),
                i <= n,
                idx == n || (idx < n && self.areas@[idx as int].vpn_range.start.0 == start.0
                    / PAGE_SIZE),
                idx == n ==> forall|j: int|
                    0 <= j < i ==> (#[trigger] self.areas@[j]).vpn_range.start.0 != start.0
                        / PAGE_SIZE,
            decreases n - i,
        {
            if idx == n && self.areas[i].get_vpn_range().get_start().0 == start.floor().0 {
                idx = i;
            }
            i = i + 1;
        }
        if idx == n {
            return Err(MMError::AreaError(AreaError::NotMatch));
        }
        let i = idx;
        let ghost self0 = *self;
        let ghost fa0 = *fa;
        let to = new_end.ceil();
        let mut area = self.areas.remove(i);
        let ghost area0 = area;
        match area.expand(&mut self.page_table, fa, to) {
            Ok(()) => {},
            Err(_) => {
                proof {
                    assert(false);
                }
            },
        }
        self.areas.insert(i, area);
        proof {
            assert(self.areas@ =~= self0.areas@.update(i as int, area));
            assert(*fa == fa0);
            assert(area.frames() == area0.frames());
            assert forall|v: u64|
                #[trigger] self.page_table.mapping().contains_key(v) implies v == TRAMPOLINE_VPN
                || exists|j: int|
                0 <= j < self.areas@.len() && #[trigger] area_covers(self.areas@[j], v) by {
                if v != TRAMPOLINE_VPN {
                    assert(self0.page_table.mapping().contains_key(v));
                    let j = choose|j: int|
                        0 <= j < self0.areas@.len() && #[trigger] area_covers(self0.areas@[j], v);
                    assert(area_covers(self.areas@[j], v));
                }
            };
            assert forall|j: int, v: u64|
                0 <= j < self.areas@.len() && #[trigger] area_covers(
                    self.areas@[j],
                    v,
                ) implies self.page_table.mapping().contains_key(v) && self.page_table.mapping()[v]
                == area_entry(self.areas@[j], v) by {
                if j == i {
                    assert(area.map_type == MapType::Framed);
                    assert(area.frames().contains_key(v));
                    assert(area_covers(self0.areas@[j], v));
                } else {
                    assert(self.areas@[j] == self0.areas@[j]);
                    assert(area_covers(self0.areas@[j], v));
                }
            };
            assert forall|j: int, q: u64|
                0 <= j < self.areas@.len() && (#[trigger] self.areas@[j].owns_frame(q)) implies !self.page_table.owns(
                q,
            ) by {
                if j == i {
                    assert(self0.areas@[j].owns_frame(q));
                } else {
                    assert(self.areas@[j] == self0.areas@[j]);
                    assert(self0.areas@[j].owns_frame(q));
                }
            };
            assert forall|j: int|
                0 <= j < self.areas@.len() implies (#[trigger] self.areas@[j]).frames_ok(*fa) by {
                if j == i {
                    assert(area.frames() == self0.areas@[j].frames());
                    assert(self0.areas@[j].frames_ok(*fa));
                } else {
                    assert(self.areas@[j] == self0.areas@[j]);
                }
            };
            assert forall|j1: int, j2: int, q: u64|
                #![trigger self.areas@[j1].owns_frame(q), self.areas@[j2].owns_frame(q)]
                0 <= j1 < self.areas@.len() && 0 <= j2 < self.areas@.len() && j1 != j2
                    && self.areas@[j1].owns_frame(q) implies !self.areas@[j2].owns_frame(q) by {
                if self.areas@[j1].owns_frame(q) && self.areas@[j2].owns_frame(q) {
                    let k1 = choose|k: u64|
                        #[trigger] self.areas@[j1].frames().contains_key(k)
                            && self.areas@[j1].frames()[k] == q;
                    let k2 = choose|k: u64|
                        #[trigger] self.areas@[j2].frames().contains_key(k)
                            && self.areas@[j2].frames()[k] == q;
                    assert(self0.areas@[j1].frames().contains_key(k1)
                        && self0.areas@[j1].frames()[k1] == q);
                    assert(self0.areas@[j2].frames().contains_key(k2)
                        && self0.areas@[j2].frames()[k2] == q);
                    assert(self0.areas@[j1].owns_frame(q));
                    assert(self0.areas@[j2].owns_frame(q));
                }
            };
            assert(to.0 == page_span(start, new_end).end.0);
            assert(self0.areas@[i as int].vpn_range.start.0 == start.0 / PAGE_SIZE);
            assert(self.areas@[i as int].vpn_range == (VPNRange {
                start: self0.areas@[i as int].vpn_range.start,
                end: page_span(start, new_end).end,
            }));
            assert(self.areas@ == self0.areas@.update(i as int, self.areas@[i as int]));
            assert forall|j1: int, j2: int, v: u64|
                #![trigger self.areas@[j1].vpn_range.has(v), self.areas@[j2].vpn_range.has(v)]
                0 <= j1 < j2 < self.areas@.len() implies !(self.areas@[j1].vpn_range.has(v)
                && self.areas@[j2].vpn_range.has(v)) by {
                if self.areas@[j1].vpn_range.has(v) && self.areas@[j2].vpn_range.has(v) {
                    if j1 == i || j2 == i {
                        let a = if j1 == i { j2 } else { j1 };
                        assert(self.areas@[a] == self0.areas@[a]);
                        if self0.areas@[i as int].vpn_range.has(v) {
                            assert(self0.areas@[a].vpn_range.has(v));
                        } else {
                            assert(self0.areas@[i as int].vpn_range.start.0 <= v < to.0);
                            assert(self0.areas@[a].vpn_range.start.0 != start.0 / PAGE_SIZE)
                                by {
                                assert(self0.areas@[i as int].vpn_range.start.0 == start.0
                                    / PAGE_SIZE);
                            };
                            assert(self0.areas@[a].vpn_range.has(v));
                        }
                    } else {
                        assert(self0.areas@[j1].vpn_range.has(v));
                        assert(self0.areas@[j2].vpn_range.has(v));
                    }
                }
            };
            assert forall|j: int|
                0 <= j < self.areas@.len() implies !(#[trigger] self.areas@[j]).vpn_range.has(
                TRAMPOLINE_VPN,
            ) by {
                if self.areas@[j].vpn_range.has(TRAMPOLINE_VPN) {
                    if j == i {
                        if self0.areas@[j].vpn_range.has(TRAMPOLINE_VPN) {
                        } else {
                            assert(self0.areas@[i as int].vpn_range.start.0 <= TRAMPOLINE_VPN
                                < to.0);
                        }
                    } else {
                        assert(self0.areas@[j].vpn_range.has(TRAMPOLINE_VPN));
                    }
                }
            };
        }
        Ok(())
    }
}



/// Load one segment of the image into the space: insert its resident
/// frame-backed region with the header-derived permission, then copy the
/// segment's file bytes into the backing frames page by page.
#[verifier::rlimit(100)]
#[verifier::spinoff_prover]
fn load_segment(
    ms: &mut MemorySet,
    fa: &mut FrameAllocator,
    mem: &mut PhysMemory,
    elf_data: &[u8],
    i: u64,
) -> (r: MMResult<()>)
    requires
        old(ms).wf(),
        old(fa).wf(),
        old(mem).wf(),
        old(ms).frames_ok(*old(fa)),
        crate::elf::elf_wf(elf_data@),
        i < crate::elf::spec_ph_count(elf_data@),
        crate::elf::spec_ph(elf_data@, i as int).ptype == crate::elf::PT_LOAD,
        forall|p: u64| old(fa).base <= p < old(fa).end ==> old(mem).holds(p),
        forall|j: int, v: u64|
            #![trigger old(ms).areas@[j].vpn_range.has(v)]
            0 <= j < old(ms).areas@.len() ==> !(old(ms).areas@[j].vpn_range.has(v)
                && crate::elf::load_span(elf_data@, i as int).has(v)),
    ensures
        final(ms).wf(),
        final(fa).wf(),
        final(mem).wf(),
        final(fa).same_pool(*old(fa)),
        final(mem).same_extent(*old(mem)),
        forall|p: u64| final(mem).holds(p) == old(mem).holds(p),
        final(ms).frames_ok(*final(fa)),
        final(ms).trampoline == old(ms).trampoline,
        forall|q: u64| old(fa).allocated(q) ==> final(fa).allocated(q),
        final(fa).free_count() >= old(fa).free_count() - 3 * crate::elf::load_span(
            elf_data@,
            i as int,
        ).len_spec(),
        old(fa).free_count() >= 3 * crate::elf::load_span(elf_data@, i as int).len_spec()
            ==> r.is_ok(),
        r.is_err() ==> *final(mem) == *old(mem),
        r.is_ok() ==> {
            &&& final(ms).areas@.len() == old(ms).areas@.len() + 1
            &&& (forall|j: int|
                0 <= j < old(ms).areas@.len() ==> final(ms).areas@[j] == old(ms).areas@[j])
            &&& final(ms).areas@.last().vpn_range == crate::elf::load_span(elf_data@, i as int)
            &&& final(ms).areas@.last().map_type == MapType::Framed
            &&& final(ms).areas@.last().map_permission.bits == crate::elf::perm_of_flags(
                crate::elf::spec_ph(elf_data@, i as int).flags,
            )
            &&& (forall|v: u64|
                crate::elf::load_span(elf_data@, i as int).has(v) ==> (
                #[trigger] final(ms).areas@.last().frames().contains_key(v)))
            &&& (forall|p: u64|
                old(mem).holds(p) && !final(ms).areas@.last().owns_frame(p) ==> final(mem).page(
                    p,
                ) == old(mem).page(p))
            &&& (forall|pg: int, j: int|
                0 <= pg < pages_of(crate::elf::spec_ph(elf_data@, i as int).file_size as int) && 0
                    <= j < PAGE_BYTES && pg * PAGE_BYTES + j < crate::elf::spec_ph(
                    elf_data@,
                    i as int,
                ).file_size ==> (#[trigger] final(mem).page(
                    final(ms).areas@.last().frames()[(crate::elf::load_span(
                        elf_data@,
                        i as int,
                    ).start.0 + pg) as u64],
                )[j]) == elf_data@[crate::elf::spec_ph(elf_data@, i as int).offset + pg
                    * PAGE_BYTES + j])
        },
{
    let ph = crate::elf::read_ph(elf_data, i);
    let start_va = VirtAddr(ph.vaddr);
    let end_va = VirtAddr(ph.vaddr + ph.mem_size);
    proof {
        assert(16u8 & 0xe1 == 0) by (bit_vector);
        crate::elf::lemma_load_span_wf(elf_data@, i as int);
    }
    let mut perm = match MapPermission::from_bits(crate::memory_area::PERM_U) {
        Some(p) => p,
        None => {
            proof {
                assert(false);
            }
            MapPermission { bits: 0 }
        },
    };
    if ph.flags & 4 != 0 {
        perm = perm.union(MapPermission { bits: crate::memory_area::PERM_R });
        proof {
            assert(crate::memory_area::PERM_R & 0xe1 == 0) by (bit_vector);
        }
    }
    if ph.flags & 2 != 0 {
        proof {
            assert(crate::memory_area::PERM_W & 0xe1 == 0) by (bit_vector);
            let b = perm.bits;
            assert(b & 0xe1 == 0 ==> (b | 4) & 0xe1 == 0) by (bit_vector);
        }
        perm = perm.union(MapPermission { bits: crate::memory_area::PERM_W });
    }
    if ph.flags & 1 != 0 {
        proof {
            assert(crate::memory_area::PERM_X & 0xe1 == 0) by (bit_vector);
            let b = perm.bits;
            assert(b & 0xe1 == 0 ==> (b | 8) & 0xe1 == 0) by (bit_vector);
        }
        perm = perm.union(MapPermission { bits: crate::memory_area::PERM_X });
    }
    let ghost span = page_span(start_va, end_va);
    proof {
        assert(ph == crate::elf::spec_ph(elf_data@, i as int));
        assert(span == crate::elf::load_span(elf_data@, i as int));
        assert(perm.bits == crate::elf::perm_of_flags(ph.flags));
        assert(1 <= ph.file_size <= ph.mem_size);
        assert(!span.has(TRAMPOLINE_VPN));
    }
    match ms.insert_framed_area(fa, start_va, end_va, perm) {
        Ok(()) => {},
        Err(e) => {
            proof {
                if crate::memory_set::span_overlaps(*old(ms), start_va, end_va) {
                    let (j, v) = choose|j: int, v: u64|
                        0 <= j < old(ms).areas@.len() && (
                        #[trigger] old(ms).areas@[j].vpn_range.has(v)) && page_span(
                            start_va,
                            end_va,
                        ).has(v);
                    assert(false);
                }
            }
            return Err(e);
        },
    }
    let ghost ms1 = *ms;
    let ghost fa1 = *fa;
    let ghost mem0 = *mem;
    let seg = crate::elf::copy_window(
        elf_data,
        ph.offset as usize,
        (ph.offset + ph.file_size) as usize,
    );
    let pages = ((seg.len() + PAGE_BYTES - 1) / PAGE_BYTES) as u64;
    let last = ms.areas.len() - 1;
    let mut t: u64 = 0;
    proof {
        assert(pages == pages_of(ph.file_size as int));
        assert(span.start.0 + pages <= span.end.0);
    }
    while t < pages
        invariant
            *ms == ms1,
            *fa == fa1,
            ms.wf(),
            fa.wf(),
            mem.wf(),
            mem.same_extent(mem0),
            mem.base == mem0.base,
            forall|p: u64| mem.holds(p) == mem0.holds(p),
            forall|p: u64| fa1.base <= p < fa1.end ==> mem0.holds(p),
            ms.frames_ok(*fa),
            last == ms.areas@.len() - 1,
            ms.areas@.len() >= 1,
            t <= pages,
            seg@.len() >= 1,
            seg@.len() == crate::elf::spec_ph(elf_data@, i as int).file_size,
            seg@.len() + PAGE_BYTES <= usize::MAX,
            pages == pages_of(seg@.len() as int),
            ms.areas@[last as int].vpn_range == span,
            span.wf(),
            span.start.0 + pages <= span.end.0,
            forall|v: u64|
                #[trigger] span.has(v) ==> ms.areas@[last as int].frames().contains_key(v),
            forall|jj: int|
                0 <= jj < seg@.len() ==> seg@[jj] == elf_data@[crate::elf::spec_ph(
                    elf_data@,
                    i as int,
                ).offset + jj],
            forall|p: u64|
                mem0.holds(p) && !ms.areas@[last as int].owns_frame(p) ==> mem.page(p)
                    == mem0.page(p),
            forall|pg: int, j: int|
                0 <= pg < t && 0 <= j < PAGE_BYTES && pg * PAGE_BYTES + j < seg@.len() ==> (
                #[trigger] mem.page(
                    ms.areas@[last as int].frames()[(span.start.0 + pg) as u64],
                )[j]) == seg@[pg * PAGE_BYTES + j],
        decreases pages - t,
    {
        let v = VirtPageNum(ms.areas[last].get_vpn_range().get_start().0 + t);
        proof {
            assert(span.has(v.0));
        }
        let f = match ms.areas[last].data_frames.get(v.0) {
            Some(f) => f,
            None => {
                proof {
                    assert(false);
                }
                0
            },
        };
        proof {
            assert(ms.areas@[last as int].frames_ok(*fa));
            assert(fa.allocated(f));
            assert(mem0.holds(f));
            assert(ms.areas@[last as int].owns_frame(f));
        }
        let src_start = (t as usize) * PAGE_BYTES;
        proof {
            assert((t as usize) * PAGE_BYTES + PAGE_BYTES <= seg@.len() + PAGE_BYTES)
                by (nonlinear_arith)
                requires
                    t < pages,
                    pages == (seg@.len() + PAGE_BYTES - 1) / (PAGE_BYTES as int),
                    PAGE_BYTES == 4096,
                    seg@.len() >= 1,
            ;
            assert(src_start < seg@.len()) by (nonlinear_arith)
                requires
                    t < pages,
                    src_start == (t as usize) * PAGE_BYTES,
                    pages == (seg@.len() + PAGE_BYTES - 1) / (PAGE_BYTES as int),
                    PAGE_BYTES == 4096,
                    seg@.len() >= 1,
            ;
        }
        let seg_len = seg.len();
        let src_end = if src_start + PAGE_BYTES <= seg_len {
            src_start + PAGE_BYTES
        } else {
            seg_len
        };
        let ghost mem_w = *mem;
        mem.write_range(f, 0, seg.as_slice(), src_start, src_end);
        proof {
            assert forall|pg: int, j: int|
                0 <= pg < t + 1 && 0 <= j < PAGE_BYTES && pg * PAGE_BYTES + j
                    < seg@.len() implies (#[trigger] mem.page(
                ms.areas@[last as int].frames()[(span.start.0 + pg) as u64],
            )[j]) == seg@[pg * PAGE_BYTES + j] by {
                let g = ms.areas@[last as int].frames()[(span.start.0 + pg) as u64];
                assert(span.has((span.start.0 + pg) as u64));
                assert(ms.areas@[last as int].frames().contains_key((span.start.0 + pg) as u64));
                assert(ms.areas@[last as int].frames_ok(*fa));
                if pg < t {
                    if g == f {
                        assert((span.start.0 + pg) as u64 == v.0);
                    }
                    assert(g != f);
                    assert(mem0.holds(g));
                    assert(mem.page(g) == mem_w.page(g));
                } else {
                    assert(g == f);
                    assert(src_start + (j - 0) == pg * PAGE_BYTES + j);
                }
            };
            assert forall|p: u64|
                mem0.holds(p) && !ms.areas@[last as int].owns_frame(p) implies mem.page(p)
                == mem0.page(p) by {
                assert(p != f);
                assert(mem_w.page(p) == mem0.page(p));
            };
        }
        t = t + 1;
    }
    proof {
        assert(*ms == ms1);
        assert(mem0 == *old(mem) || true);
        assert forall|pg: int, j: int|
            0 <= pg < pages_of(crate::elf::spec_ph(elf_data@, i as int).file_size as int) && 0 <= j
                < PAGE_BYTES && pg * PAGE_BYTES + j < crate::elf::spec_ph(
                elf_data@,
                i as int,
            ).file_size implies (#[trigger] mem.page(
            ms.areas@.last().frames()[(crate::elf::load_span(elf_data@, i as int).start.0
                + pg) as u64],
        )[j]) == elf_data@[crate::elf::spec_ph(elf_data@, i as int).offset + pg * PAGE_BYTES
            + j] by {
            assert(pg < pages);
            assert(mem.page(ms.areas@[last as int].frames()[(span.start.0 + pg) as u64])[j]
                == seg@[pg * PAGE_BYTES + j]);
            assert(seg@[pg * PAGE_BYTES + j] == elf_data@[crate::elf::spec_ph(
                elf_data@,
                i as int,
            ).offset + pg * PAGE_BYTES + j]);
        };
    }
    Ok(())
}


/// Finish a user space above its loaded segments: the user stack over a
/// guard page, the zero-length break-adjustable region at the stack top, and
/// the always-resident trap-context region.  Returns the stack top.
#[verifier::rlimit(100)]
#[verifier::spinoff_prover]
fn finish_user_space(ms: &mut MemorySet, fa: &mut FrameAllocator, max_end_vpn: u64) -> (r:
    MMResult<u64>)
    requires
        old(ms).wf(),
        old(fa).wf(),
        old(ms).frames_ok(*old(fa)),
        max_end_vpn * PAGE_SIZE + 3 * PAGE_SIZE + USER_STACK_SIZE <= TRAP_CONTEXT_BASE
            || max_end_vpn == 0,
        max_end_vpn == 0 ==> old(ms).areas@.len() == 0,
        forall|j: int|
            0 <= j < old(ms).areas@.len() ==> (#[trigger] old(ms).areas@[j]).vpn_range.end.0
                <= max_end_vpn,
    ensures
        final(ms).wf(),
        final(fa).wf(),
        final(fa).same_pool(*old(fa)),
        final(ms).frames_ok(*final(fa)),
        final(ms).trampoline == old(ms).trampoline,
        forall|q: u64| old(fa).allocated(q) ==> final(fa).allocated(q),
        old(fa).free_count() >= 3 * page_span(VirtAddr(TRAP_CONTEXT_BASE), VirtAddr(TRAMPOLINE)).len_spec()
            ==> r.is_ok(),
        match r {
            Ok(top) => {
                let nl = old(ms).areas@.len() as int;
                &&& top == max_end_vpn * PAGE_SIZE + PAGE_SIZE + USER_STACK_SIZE
                &&& top % PAGE_SIZE == 0
                &&& final(ms).areas@.len() == nl + 3
                &&& (forall|j: int| 0 <= j < nl ==> final(ms).areas@[j] == old(ms).areas@[j])
                &&& final(ms).areas@[nl].vpn_range == page_span(
                    VirtAddr((top - USER_STACK_SIZE) as u64),
                    VirtAddr(top),
                )
                &&& final(ms).areas@[nl].map_type == MapType::Framed
                &&& final(ms).areas@[nl].map_permission.bits == (crate::memory_area::PERM_U
                    | crate::memory_area::PERM_R | crate::memory_area::PERM_W)
                &&& final(ms).areas@[nl].frames() == Map::<u64, u64>::empty()
                &&& final(ms).areas@[nl + 1].vpn_range == page_span(VirtAddr(top), VirtAddr(top))
                &&& final(ms).areas@[nl + 1].map_type == MapType::Framed
                &&& final(ms).areas@[nl + 1].map_permission.bits == (crate::memory_area::PERM_U
                    | crate::memory_area::PERM_R | crate::memory_area::PERM_W)
                &&& final(ms).areas@[nl + 1].frames() == Map::<u64, u64>::empty()
                &&& final(ms).areas@[nl + 1].vpn_range.start.0 == top / PAGE_SIZE
                &&& final(ms).areas@[nl + 2].vpn_range == page_span(
                    VirtAddr(TRAP_CONTEXT_BASE),
                    VirtAddr(TRAMPOLINE),
                )
                &&& final(ms).areas@[nl + 2].map_type == MapType::Framed
                &&& final(ms).areas@[nl + 2].map_permission.bits == (crate::memory_area::PERM_R
                    | crate::memory_area::PERM_W)
                &&& (forall|v: u64|
                    page_span(VirtAddr(TRAP_CONTEXT_BASE), VirtAddr(TRAMPOLINE)).has(v) ==> (
                    #[trigger] final(ms).areas@[nl + 2].frames().contains_key(v)))
                &&& (forall|j: int|
                    0 <= j < nl + 2 ==> (#[trigger] final(ms).areas@[j]).vpn_range.end.0 <= top
                        / PAGE_SIZE)
            },
            Err(_) => true,
        },
{
let max_end_va: u64 = max_end_vpn * PAGE_SIZE;
    let user_stack_bottom: u64 = max_end_va + PAGE_SIZE;
    let user_stack_top: u64 = user_stack_bottom + USER_STACK_SIZE;
    let urw = match MapPermission::from_bits(
        crate::memory_area::PERM_U | crate::memory_area::PERM_R | crate::memory_area::PERM_W,
    ) {
        Some(p) => p,
        None => {
            proof {
                assert((16u8 | 2 | 4) & 0xe1 == 0) by (bit_vector);
                assert(false);
            }
            MapPermission { bits: 0 }
        },
    };
    proof {
        assert((16u8 | 2 | 4) & 0xe1 == 0) by (bit_vector);
        let sb = user_stack_bottom;
        let st = user_stack_top;
        assert forall|j: int, v: u64|
            #![trigger ms.areas@[j].vpn_range.has(v)]
            0 <= j < ms.areas@.len() implies !(ms.areas@[j].vpn_range.has(v) && page_span(
            VirtAddr(sb),
            VirtAddr(st),
        ).has(v)) by {
            if ms.areas@[j].vpn_range.has(v) {
                assert(v < max_end_vpn);
            }
        };
    }
    match ms.insert_framed_area_lazy(
        fa,
        VirtAddr(user_stack_bottom),
        VirtAddr(user_stack_top),
        urw,
    ) {
        Ok(()) => {},
        Err(e) => {
            return Err(e);
        },
    }
    proof {
        let st = user_stack_top;
        assert forall|j: int, v: u64|
            #![trigger ms.areas@[j].vpn_range.has(v)]
            0 <= j < ms.areas@.len() implies !(ms.areas@[j].vpn_range.has(v) && page_span(
            VirtAddr(st),
            VirtAddr(st),
        ).has(v)) by {};
    }
    match ms.insert_framed_area_lazy(
        fa,
        VirtAddr(user_stack_top),
        VirtAddr(user_stack_top),
        urw,
    ) {
        Ok(()) => {},
        Err(e) => {
            return Err(e);
        },
    }
    let rw = match MapPermission::from_bits(
        crate::memory_area::PERM_R | crate::memory_area::PERM_W,
    ) {
        Some(p) => p,
        None => {
            proof {
                assert((2u8 | 4) & 0xe1 == 0) by (bit_vector);
                assert(false);
            }
            MapPermission { bits: 0 }
        },
    };
    proof {
        assert forall|j: int, v: u64|
            #![trigger ms.areas@[j].vpn_range.has(v)]
            0 <= j < ms.areas@.len() implies !(ms.areas@[j].vpn_range.has(v) && page_span(
            VirtAddr(TRAP_CONTEXT_BASE),
            VirtAddr(TRAMPOLINE),
        ).has(v)) by {};
        assert(!page_span(VirtAddr(TRAP_CONTEXT_BASE), VirtAddr(TRAMPOLINE)).has(
            TRAMPOLINE_VPN,
        ));
    }
    match ms.insert_framed_area(fa, VirtAddr(TRAP_CONTEXT_BASE), VirtAddr(TRAMPOLINE), rw) {
        Ok(()) => {},
        Err(e) => {
            return Err(e);
        },
    }
    Ok(user_stack_top)
}

impl MemorySet {
    /// Build a task's address space from an executable image: the trampoline,
    /// one resident region per loadable segment (with its data copied in),
    /// the user stack above a guard page, a zero-length region reserved for
    /// break adjustment, and the always-resident trap-context region.
    /// Returns the space, the stack top, and the image's entry point.
    #[verifier::rlimit(100)]
    #[verifier::spinoff_prover]
    pub fn from_elf(
        fa: &mut FrameAllocator,
        mem: &mut PhysMemory,
        elf_data: &[u8],
        trampoline_ppn: u64,
    ) -> (r: MMResult<(MemorySet, u64, u64)>)
        requires
            old(fa).wf(),
            old(mem).wf(),
            crate::elf::elf_wf(elf_data@),
            forall|p: u64| old(fa).base <= p < old(fa).end ==> old(mem).holds(p),
        ensures
            final(fa).wf(),
            final(fa).same_pool(*old(fa)),
            final(mem).wf(),
            final(mem).same_extent(*old(mem)),
            forall|p: u64| final(mem).holds(p) == old(mem).holds(p),
            old(fa).free_count() >= 3 + crate::elf::load_budget(
                elf_data@,
                crate::elf::spec_ph_count(elf_data@),
            ) + 3 * page_span(VirtAddr(TRAP_CONTEXT_BASE), VirtAddr(TRAMPOLINE)).len_spec()
                ==> r.is_ok(),
            match r {
                Ok(t) => {
                    &&& t.0.wf()
                    &&& t.0.frames_ok(*final(fa))
                    &&& t.0.trampoline == Some(trampoline_ppn)
                    &&& t.2 == crate::elf::spec_entry(elf_data@)
                    &&& t.1 % PAGE_SIZE == 0
                    &&& t.1 == crate::elf::last_load_end(
                        elf_data@,
                        crate::elf::spec_ph_count(elf_data@),
                    ) * PAGE_SIZE + PAGE_SIZE + USER_STACK_SIZE
                    &&& t.0.areas@.len() == crate::elf::loads_before(
                        elf_data@,
                        crate::elf::spec_ph_count(elf_data@),
                    ) + 3
                    &&& {
                        let nl = crate::elf::loads_before(
                            elf_data@,
                            crate::elf::spec_ph_count(elf_data@),
                        );
                        &&& t.0.areas@[nl].vpn_range == page_span(
                            VirtAddr((t.1 - USER_STACK_SIZE) as u64),
                            VirtAddr(t.1),
                        )
                        &&& t.0.areas@[nl].map_type == MapType::Framed
                        &&& t.0.areas@[nl].map_permission.bits == (crate::memory_area::PERM_U
                            | crate::memory_area::PERM_R | crate::memory_area::PERM_W)
                        &&& t.0.areas@[nl].frames() == Map::<u64, u64>::empty()
                        &&& t.0.areas@[nl + 1].vpn_range == page_span(
                            VirtAddr(t.1),
                            VirtAddr(t.1),
                        )
                        &&& t.0.areas@[nl + 1].map_type == MapType::Framed
                        &&& t.0.areas@[nl + 1].map_permission.bits == (crate::memory_area::PERM_U
                            | crate::memory_area::PERM_R | crate::memory_area::PERM_W)
                        &&& t.0.areas@[nl + 1].frames() == Map::<u64, u64>::empty()
                        &&& t.0.areas@[nl + 1].vpn_range.start.0 == t.1 / PAGE_SIZE
                        &&& t.0.areas@[nl + 2].vpn_range == page_span(
                            VirtAddr(TRAP_CONTEXT_BASE),
                            VirtAddr(TRAMPOLINE),
                        )
                        &&& t.0.areas@[nl + 2].map_type == MapType::Framed
                        &&& t.0.areas@[nl + 2].map_permission.bits == (crate::memory_area::PERM_R
                            | crate::memory_area::PERM_W)
                        &&& (forall|v: u64|
                            page_span(VirtAddr(TRAP_CONTEXT_BASE), VirtAddr(TRAMPOLINE)).has(v)
                                ==> (#[trigger] t.0.areas@[nl + 2].frames().contains_key(v)))
                        &&& (forall|j: int|
                            0 <= j < nl + 2 ==> (#[trigger] t.0.areas@[j]).vpn_range.end.0 <= t.1
                                / PAGE_SIZE)
                    }
                },
                Err(_) => true,
            },
    {
        let ghost fa00 = *fa;
        proof {
            if fa00.free_count() >= 3 + crate::elf::load_budget(
                elf_data@,
                crate::elf::spec_ph_count(elf_data@),
            ) + 3 * page_span(VirtAddr(TRAP_CONTEXT_BASE), VirtAddr(TRAMPOLINE)).len_spec() {
                crate::elf::lemma_load_budget_mono(
                    elf_data@,
                    0,
                    crate::elf::spec_ph_count(elf_data@),
                );
                assert(fa00.free_count() >= 3);
            }
        }
        let mut ms = match MemorySet::new_bare(fa) {
            Ok(ms) => ms,
            Err(e) => {
                return Err(e);
            },
        };
        match ms.map_trampoline(fa, trampoline_ppn) {
            Ok(()) => {},
            Err(e) => {
                return Err(e);
            },
        }
        let count = read_le16(elf_data, 56);
        let mut max_end_vpn: u64 = 0;
        let mut i: u64 = 0;
        while i < count
            invariant
                fa00 == *old(fa),
                fa.wf(),
                mem.wf(),
                fa.same_pool(fa00),
                mem.same_extent(*old(mem)),
                forall|p: u64| mem.holds(p) == old(mem).holds(p),
                forall|p: u64| fa00.base <= p < fa00.end ==> mem.holds(p),
                crate::elf::elf_wf(elf_data@),
                count == crate::elf::spec_ph_count(elf_data@),
                i <= count,
                ms.wf(),
                ms.frames_ok(*fa),
                ms.trampoline == Some(trampoline_ppn),
                max_end_vpn * PAGE_SIZE + 3 * PAGE_SIZE + USER_STACK_SIZE <= TRAP_CONTEXT_BASE
                    || max_end_vpn == 0,
                max_end_vpn == 0 ==> ms.areas@.len() == 0,
                forall|j: int|
                    0 <= j < ms.areas@.len() ==> (#[trigger] ms.areas@[j]).vpn_range.end.0
                        <= max_end_vpn,
                forall|t: int|
                    i <= t < count && (#[trigger] crate::elf::spec_ph(elf_data@, t)).ptype
                        == crate::elf::PT_LOAD ==> max_end_vpn <= crate::elf::spec_ph(
                        elf_data@,
                        t,
                    ).vaddr / PAGE_SIZE,
                ms.areas@.len() == crate::elf::loads_before(elf_data@, i as int),
                max_end_vpn == crate::elf::last_load_end(elf_data@, i as int),
                fa.free_count() >= fa00.free_count() - 3 - crate::elf::load_budget(
                    elf_data@,
                    i as int,
                ),
            decreases count - i,
        {
            let ph = crate::elf::read_ph(elf_data, i);
            if ph.ptype == crate::elf::PT_LOAD {
                proof {
                    crate::elf::lemma_load_span_wf(elf_data@, i as int);
                    assert forall|j: int, v: u64|
                        #![trigger ms.areas@[j].vpn_range.has(v)]
                        0 <= j < ms.areas@.len() implies !(ms.areas@[j].vpn_range.has(v)
                        && crate::elf::load_span(elf_data@, i as int).has(v)) by {
                        if ms.areas@[j].vpn_range.has(v) {
                            assert(v < max_end_vpn);
                            assert(max_end_vpn <= crate::elf::spec_ph(elf_data@, i as int).vaddr
                                / PAGE_SIZE);
                        }
                    };
                    if fa00.free_count() >= 3 + crate::elf::load_budget(
                        elf_data@,
                        crate::elf::spec_ph_count(elf_data@),
                    ) + 3 * page_span(VirtAddr(TRAP_CONTEXT_BASE), VirtAddr(TRAMPOLINE)).len_spec() {
                        crate::elf::lemma_load_budget_mono(
                            elf_data@,
                            i as int + 1,
                            crate::elf::spec_ph_count(elf_data@),
                        );
                        assert(fa.free_count() >= 3 * crate::elf::load_span(
                            elf_data@,
                            i as int,
                        ).len_spec());
                    }
                }
                match load_segment(&mut ms, fa, mem, elf_data, i) {
                    Ok(()) => {},
                    Err(e) => {
                        proof {
                            if fa00.free_count() >= 3 + crate::elf::load_budget(
                                elf_data@,
                                crate::elf::spec_ph_count(elf_data@),
                            ) + 3 * page_span(
                                VirtAddr(TRAP_CONTEXT_BASE),
                                VirtAddr(TRAMPOLINE),
                            ).len_spec() {
                                assert(false);
                            }
                        }
                        return Err(e);
                    },
                }
                max_end_vpn = ms.areas[ms.areas.len() - 1].get_vpn_range().get_end().0;
                proof {
                    assert(max_end_vpn == crate::elf::load_span(elf_data@, i as int).end.0);
                    let ph_g = crate::elf::spec_ph(elf_data@, i as int);
                    assert(max_end_vpn * PAGE_SIZE + 3 * PAGE_SIZE + USER_STACK_SIZE
                        <= TRAP_CONTEXT_BASE) by (nonlinear_arith)
                        requires
                            max_end_vpn == ((ph_g.vaddr + ph_g.mem_size + PAGE_SIZE - 1) as int / (
                            PAGE_SIZE as int)) as u64,
                            ph_g.vaddr + ph_g.mem_size + 3 * PAGE_SIZE + USER_STACK_SIZE
                                <= TRAP_CONTEXT_BASE,
                            PAGE_SIZE == 4096,
                            USER_STACK_SIZE == 8192,
                            TRAP_CONTEXT_BASE == 0x7f_ffff_e000,
                    ;
                    assert forall|tt: int|
                        i + 1 <= tt < count && (#[trigger] crate::elf::spec_ph(
                            elf_data@,
                            tt,
                        )).ptype == crate::elf::PT_LOAD implies max_end_vpn <= crate::elf::spec_ph(
                        elf_data@,
                        tt,
                    ).vaddr / PAGE_SIZE by {
                        assert(crate::elf::spec_ph(elf_data@, i as int).ptype
                            == crate::elf::PT_LOAD);
                    };

                }
            }
            i = i + 1;
        }
        let user_stack_top = match finish_user_space(&mut ms, fa, max_end_vpn) {
            Ok(top) => top,
            Err(e) => {
                proof {
                    if fa00.free_count() >= 3 + crate::elf::load_budget(
                        elf_data@,
                        crate::elf::spec_ph_count(elf_data@),
                    ) + 3 * page_span(VirtAddr(TRAP_CONTEXT_BASE), VirtAddr(TRAMPOLINE)).len_spec() {
                        crate::elf::lemma_load_budget_mono(
                            elf_data@,
                            crate::elf::spec_ph_count(elf_data@),
                            crate::elf::spec_ph_count(elf_data@),
                        );
                        assert(false);
                    }
                }
                return Err(e);
            },
        };
        let entry = read_le64(elf_data, 24);
        Ok((ms, user_stack_top, entry))
    }
}

/// The linker-defined section boundaries of the kernel image, handed in by
/// the boot path: the library cannot read linker symbols itself.
#[derive(Clone, Copy, PartialEq, Eq, Structural, Debug)]
pub struct KernelLayout {
    /// Start of the text section.
    pub text_start: u64,
    /// End of the text section.
    pub text_end: u64,
    /// Start of the read-only data section.
    pub rodata_start: u64,
    /// End of the read-only data section.
    pub rodata_end: u64,
    /// Start of the data section.
    pub data_start: u64,
    /// End of the data section.
    pub data_end: u64,
    /// Start of the zero-initialized section (with the boot stack).
    pub bss_start: u64,
    /// End of the zero-initialized section.
    pub bss_end: u64,
    /// End of the kernel image in physical memory.
    pub kernel_end: u64,
}

impl KernelLayout {
    /// Sections are ordered, page-separated, and end below the end of
    /// physical memory.
    pub open spec fn wf(self) -> bool {
        &&& self.text_start <= self.text_end
        &&& page_span(VirtAddr(self.text_start), VirtAddr(self.text_end)).end.0
            <= self.rodata_start / PAGE_SIZE
        &&& self.rodata_start <= self.rodata_end
        &&& page_span(VirtAddr(self.rodata_start), VirtAddr(self.rodata_end)).end.0
            <= self.data_start / PAGE_SIZE
        &&& self.data_start <= self.data_end
        &&& page_span(VirtAddr(self.data_start), VirtAddr(self.data_end)).end.0 <= self.bss_start
            / PAGE_SIZE
        &&& self.bss_start <= self.bss_end
        &&& page_span(VirtAddr(self.bss_start), VirtAddr(self.bss_end)).end.0 <= self.kernel_end
            / PAGE_SIZE
        &&& self.kernel_end <= MEMORY_END
    }
}

impl MemorySet {
    /// Build the kernel's identity-mapped address space: the trampoline page,
    /// then one identity region per kernel section (text readable and
    /// executable, read-only data readable, data and zero-initialized storage
    /// readable and writable) and one for the remaining physical memory.
    /// Failure here is fatal for a kernel: the caller must abort on an error.
    #[verifier::rlimit(100)]
    #[verifier::spinoff_prover]
    pub fn new_kernel(fa: &mut FrameAllocator, layout: KernelLayout, trampoline_ppn: u64) -> (r:
        MMResult<MemorySet>)
        requires
            old(fa).wf(),
            layout.wf(),
        ensures
            final(fa).wf(),
            final(fa).same_pool(*old(fa)),
            old(fa).free_count() >= 3 + 2 * (page_span(
                VirtAddr(layout.text_start),
                VirtAddr(layout.text_end),
            ).len_spec() + page_span(
                VirtAddr(layout.rodata_start),
                VirtAddr(layout.rodata_end),
            ).len_spec() + page_span(
                VirtAddr(layout.data_start),
                VirtAddr(layout.data_end),
            ).len_spec() + page_span(
                VirtAddr(layout.bss_start),
                VirtAddr(layout.bss_end),
            ).len_spec() + page_span(
                VirtAddr(layout.kernel_end),
                VirtAddr(MEMORY_END),
            ).len_spec()) ==> r.is_ok(),
            match r {
                Ok(ms) => {
                    &&& ms.wf()
                    &&& ms.frames_ok(*final(fa))
                    &&& ms.trampoline == Some(trampoline_ppn)
                    &&& ms.areas@.len() == 5
                    &&& forall|j: int|
                        0 <= j < 5 ==> (#[trigger] ms.areas@[j]).map_type == MapType::Identical
                    &&& ms.areas@[0].map_permission.bits == crate::memory_area::PERM_R
                        | crate::memory_area::PERM_X
                    &&& ms.areas@[1].map_permission.bits == crate::memory_area::PERM_R
                    &&& ms.areas@[2].map_permission.bits == crate::memory_area::PERM_R
                        | crate::memory_area::PERM_W
                    &&& ms.areas@[3].map_permission.bits == crate::memory_area::PERM_R
                        | crate::memory_area::PERM_W
                    &&& ms.areas@[4].map_permission.bits == crate::memory_area::PERM_R
                        | crate::memory_area::PERM_W
                    &&& ms.areas@[0].vpn_range == page_span(
                        VirtAddr(layout.text_start),
                        VirtAddr(layout.text_end),
                    )
                    &&& ms.areas@[1].vpn_range == page_span(
                        VirtAddr(layout.rodata_start),
                        VirtAddr(layout.rodata_end),
                    )
                    &&& ms.areas@[2].vpn_range == page_span(
                        VirtAddr(layout.data_start),
                        VirtAddr(layout.data_end),
                    )
                    &&& ms.areas@[3].vpn_range == page_span(
                        VirtAddr(layout.bss_start),
                        VirtAddr(layout.bss_end),
                    )
                    &&& ms.areas@[4].vpn_range == page_span(
                        VirtAddr(layout.kernel_end),
                        VirtAddr(MEMORY_END),
                    )
                },
                Err(e) => e == MMError::MemoryNotEnough || e == MMError::PageError(
                    crate::error::PageError::PageAlreadyAlloc,
                ),
            },
    {
        let mut ms = match MemorySet::new_bare(fa) {
            Ok(ms) => ms,
            Err(e) => {
                return Err(e);
            },
        };
        match ms.map_trampoline(fa, trampoline_ppn) {
            Ok(()) => {},
            Err(e) => {
                return Err(e);
            },
        }
        proof {
            assert(2u8 & 0xe1 == 0) by (bit_vector);
            assert((2u8 | 8) & 0xe1 == 0) by (bit_vector);
            assert((2u8 | 4) & 0xe1 == 0) by (bit_vector);
        }
        let rx = match MapPermission::from_bits(
            crate::memory_area::PERM_R | crate::memory_area::PERM_X,
        ) {
            Some(p) => p,
            None => {
                proof {
                    assert(false);
                }
                MapPermission { bits: 0 }
            },
        };
        let ro = match MapPermission::from_bits(crate::memory_area::PERM_R) {
            Some(p) => p,
            None => {
                proof {
                    assert(false);
                }
                MapPermission { bits: 0 }
            },
        };
        let rw = match MapPermission::from_bits(
            crate::memory_area::PERM_R | crate::memory_area::PERM_W,
        ) {
            Some(p) => p,
            None => {
                proof {
                    assert(false);
                }
                MapPermission { bits: 0 }
            },
        };
        proof {
            assert(MEMORY_END / PAGE_SIZE < TRAMPOLINE_VPN);
        }
        let a0 = MapArea::new(
            VirtAddr(layout.text_start),
            VirtAddr(layout.text_end),
            MapType::Identical,
            rx,
        );
        match ms.push_lazy(fa, a0) {
            Ok(()) => {},
            Err(e) => {
                return Err(e);
            },
        }
        let a1 = MapArea::new(
            VirtAddr(layout.rodata_start),
            VirtAddr(layout.rodata_end),
            MapType::Identical,
            ro,
        );
        match ms.push_lazy(fa, a1) {
            Ok(()) => {},
            Err(e) => {
                return Err(e);
            },
        }
        let a2 = MapArea::new(
            VirtAddr(layout.data_start),
            VirtAddr(layout.data_end),
            MapType::Identical,
            rw,
        );
        match ms.push_lazy(fa, a2) {
            Ok(()) => {},
            Err(e) => {
                return Err(e);
            },
        }
        let a3 = MapArea::new(
            VirtAddr(layout.bss_start),
            VirtAddr(layout.bss_end),
            MapType::Identical,
            rw,
        );
        match ms.push_lazy(fa, a3) {
            Ok(()) => {},
            Err(e) => {
                return Err(e);
            },
        }
        let a4 = MapArea::new(
            VirtAddr(layout.kernel_end),
            VirtAddr(MEMORY_END),
            MapType::Identical,
            rw,
        );
        match ms.push_lazy(fa, a4) {
            Ok(()) => {},
            Err(e) => {
                return Err(e);
            },
        }
        Ok(ms)
    }
}

/// Return (bottom, top) of the kernel stack of application `app_id` in the
/// kernel's address space: the stacks hang below the trampoline, each with
/// one guard page under it.
pub fn kernel_stack_position(app_id: u64) -> (r: (u64, u64))
    requires
        (app_id + 1) * (KERNEL_STACK_SIZE + PAGE_SIZE) <= TRAMPOLINE,
    ensures
        r.1 == TRAMPOLINE - app_id * (KERNEL_STACK_SIZE + PAGE_SIZE),
        r.0 == r.1 - KERNEL_STACK_SIZE,
{
    proof {
        assert(app_id * (KERNEL_STACK_SIZE + PAGE_SIZE) + (KERNEL_STACK_SIZE + PAGE_SIZE) <= TRAMPOLINE)
            by (nonlinear_arith)
            requires
                (app_id + 1) * (KERNEL_STACK_SIZE + PAGE_SIZE) <= TRAMPOLINE,
        ;
    }
    let top = TRAMPOLINE - app_id * (KERNEL_STACK_SIZE + PAGE_SIZE);
    let bottom = top - KERNEL_STACK_SIZE;
    (bottom, top)
}

/// The request span `[floor(start_va), ceil(end_va))` touches the
/// trampoline or trap-context page.
pub open spec fn span_critical(start_va: VirtAddr, end_va: VirtAddr) -> bool {
    page_span(start_va, end_va).has(TRAMPOLINE_VPN) || page_span(start_va, end_va).has(
        TRAP_CONTEXT_VPN,
    )
}

/// Some page of the request span lies inside one of `ms`'s regions.
pub open spec fn span_overlaps(ms: MemorySet, start_va: VirtAddr, end_va: VirtAddr) -> bool {
    exists|i: int, v: u64|
        0 <= i < ms.areas@.len() && (#[trigger] ms.areas@[i].vpn_range.has(v)) && page_span(
            start_va,
            end_va,
        ).has(v)
}

/// The page range `[floor(start_va), ceil(end_va))`.
pub open spec fn page_span(start_va: VirtAddr, end_va: VirtAddr) -> VPNRange {
    VPNRange {
        start: VirtPageNum(start_va.0 / PAGE_SIZE),
        end: VirtPageNum((((end_va.0 + PAGE_SIZE - 1) as int / (PAGE_SIZE as int)) as u64)),
    }
}

} // verus!
