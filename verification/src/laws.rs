//! The general laws of the memory subsystem, stated over the views its
//! operations speak of and proved once and for all.

use vstd::prelude::*;
use crate::addr::{VirtAddr, VirtPageNum};
use crate::config::{TRAMPOLINE_VPN, TRAP_CONTEXT_VPN};
use crate::error::{AreaError, MMError, MMResult};
use crate::memory_area::{MapArea, MapPermission, MapType};
use crate::memory_set::{page_span, MemorySet};
use crate::frame_alloc::FrameAllocator;
use crate::page_table::PageTable;

verus! {

/// What a memory-map request over `[s, e)` with permission `p` guarantees of
/// the step from `pre` to `post` with result `r`: exactly the contract of the
/// request, restated as a relation between the two states.
pub open spec fn map_memory_post(
    pre: MemorySet,
    post: MemorySet,
    s: VirtAddr,
    e: VirtAddr,
    p: MapPermission,
    r: MMResult<()>,
) -> bool {
    &&& (page_span(s, e).has(TRAMPOLINE_VPN) || page_span(s, e).has(TRAP_CONTEXT_VPN) ==> r
        == Err::<(), MMError>(MMError::AreaError(AreaError::CriticalArea)))
    &&& (!(page_span(s, e).has(TRAMPOLINE_VPN) || page_span(s, e).has(TRAP_CONTEXT_VPN)) && (
    exists|i: int, v: u64|
        0 <= i < pre.areas@.len() && (#[trigger] pre.areas@[i].vpn_range.has(v)) && page_span(
            s,
            e,
        ).has(v)) ==> r == Err::<(), MMError>(MMError::AreaError(AreaError::ContainMapped)))
    &&& (!(page_span(s, e).has(TRAMPOLINE_VPN) || page_span(s, e).has(TRAP_CONTEXT_VPN)) && !(
    exists|i: int, v: u64|
        0 <= i < pre.areas@.len() && (#[trigger] pre.areas@[i].vpn_range.has(v)) && page_span(
            s,
            e,
        ).has(v)) ==> r == Ok::<(), MMError>(()))
    &&& (r.is_err() ==> post == pre)
    &&& (r.is_ok() ==> {
        &&& post.areas@.len() == pre.areas@.len() + 1
        &&& (forall|i: int| 0 <= i < pre.areas@.len() ==> post.areas@[i] == pre.areas@[i])
        &&& post.areas@.last().vpn_range == page_span(s, e)
        &&& post.areas@.last().map_type == MapType::Framed
        &&& post.areas@.last().map_permission == p
        &&& post.areas@.last().frames() == Map::<u64, u64>::empty()
    })
}

/// For any two non-overlapping page ranges away from the critical pages,
/// registering frame-backed regions for both succeeds and the two regions
/// coexist afterwards; a request overlapping an existing region fails as
/// already mapped and changes nothing.
pub proof fn lemma_disjoint_insertions_coexist(
    ms0: MemorySet,
    ms1: MemorySet,
    ms2: MemorySet,
    s1: VirtAddr,
    e1: VirtAddr,
    p1: MapPermission,
    s2: VirtAddr,
    e2: VirtAddr,
    p2: MapPermission,
    r1: MMResult<()>,
    r2: MMResult<()>,
)
    requires
        !(page_span(s1, e1).has(TRAMPOLINE_VPN) || page_span(s1, e1).has(TRAP_CONTEXT_VPN)),
        !(page_span(s2, e2).has(TRAMPOLINE_VPN) || page_span(s2, e2).has(TRAP_CONTEXT_VPN)),
        forall|i: int, v: u64|
            0 <= i < ms0.areas@.len() ==> !((#[trigger] ms0.areas@[i].vpn_range.has(v))
                && page_span(s1, e1).has(v)),
        forall|i: int, v: u64|
            0 <= i < ms0.areas@.len() ==> !((#[trigger] ms0.areas@[i].vpn_range.has(v))
                && page_span(s2, e2).has(v)),
        forall|v: u64| !(#[trigger] page_span(s1, e1).has(v) && page_span(s2, e2).has(v)),
        map_memory_post(ms0, ms1, s1, e1, p1, r1),
        map_memory_post(ms1, ms2, s2, e2, p2, r2),
    ensures
        r1 == Ok::<(), MMError>(()),
        r2 == Ok::<(), MMError>(()),
        ms2.areas@.len() == ms0.areas@.len() + 2,
        ms2.areas@[ms0.areas@.len() as int].vpn_range == page_span(s1, e1),
        ms2.areas@[ms0.areas@.len() as int].map_type == MapType::Framed,
        ms2.areas@[ms0.areas@.len() as int + 1].vpn_range == page_span(s2, e2),
        ms2.areas@[ms0.areas@.len() as int + 1].map_type == MapType::Framed,
{
    assert(r1 == Ok::<(), MMError>(())) by {
        if exists|i: int, v: u64|
            0 <= i < ms0.areas@.len() && (#[trigger] ms0.areas@[i].vpn_range.has(v)) && page_span(
                s1,
                e1,
            ).has(v) {
            let (i, v) = choose|i: int, v: u64|
                0 <= i < ms0.areas@.len() && (#[trigger] ms0.areas@[i].vpn_range.has(v))
                    && page_span(s1, e1).has(v);
        }
    };
    assert(r2 == Ok::<(), MMError>(())) by {
        if exists|i: int, v: u64|
            0 <= i < ms1.areas@.len() && (#[trigger] ms1.areas@[i].vpn_range.has(v)) && page_span(
                s2,
                e2,
            ).has(v) {
            let (i, v) = choose|i: int, v: u64|
                0 <= i < ms1.areas@.len() && (#[trigger] ms1.areas@[i].vpn_range.has(v))
                    && page_span(s2, e2).has(v);
            if i < ms0.areas@.len() {
                assert(ms0.areas@[i].vpn_range.has(v));
            } else {
                assert(ms1.areas@[i] == ms1.areas@.last());
                assert(page_span(s1, e1).has(v));
            }
        }
    };
    assert(ms2.areas@[ms0.areas@.len() as int].vpn_range == page_span(s1, e1));
}

/// A region overlapping an existing one is refused as already mapped, and
/// the refusal leaves the whole space untouched.
pub proof fn lemma_overlapping_insertion_refused(
    ms0: MemorySet,
    ms1: MemorySet,
    s: VirtAddr,
    e: VirtAddr,
    p: MapPermission,
    r: MMResult<()>,
    i: int,
    v: u64,
)
    requires
        !(page_span(s, e).has(TRAMPOLINE_VPN) || page_span(s, e).has(TRAP_CONTEXT_VPN)),
        0 <= i < ms0.areas@.len(),
        ms0.areas@[i].vpn_range.has(v),
        page_span(s, e).has(v),
        map_memory_post(ms0, ms1, s, e, p, r),
    ensures
        r == Err::<(), MMError>(MMError::AreaError(AreaError::ContainMapped)),
        ms1 == ms0,
{
    assert(ms0.areas@[i].vpn_range.has(v) && page_span(s, e).has(v));
}

/// `split` preserves total frame ownership: the two parts hold exactly the
/// frames of the pages below and at-or-above the split point, with no frame
/// duplicated or dropped.
pub proof fn lemma_split_preserves_frames(a: MapArea, p: VirtPageNum, left: MapArea, right: MapArea)
    requires
        forall|k: u64|
            left.frames().contains_key(k) == (a.frames().contains_key(k) && k < p.0),
        forall|k: u64|
            right.frames().contains_key(k) == (a.frames().contains_key(k) && k >= p.0),
        forall|k: u64|
            #[trigger] left.frames().contains_key(k) ==> left.frames()[k] == a.frames()[k],
        forall|k: u64|
            #[trigger] right.frames().contains_key(k) ==> right.frames()[k] == a.frames()[k],
    ensures
        forall|k: u64|
            a.frames().contains_key(k) == (left.frames().contains_key(k)
                || right.frames().contains_key(k)),
        forall|k: u64| !(left.frames().contains_key(k) && right.frames().contains_key(k)),
        forall|k: u64|
            #[trigger] a.frames().contains_key(k) ==> (if k < p.0 {
                left.frames().contains_key(k) && left.frames()[k] == a.frames()[k]
            } else {
                right.frames().contains_key(k) && right.frames()[k] == a.frames()[k]
            }),
{
}

/// The map-then-unmap round trip: a freshly filled frame-backed region whose
/// fill needed no new directory frames gives every taken frame back when it
/// is unmapped, so the free pool is as large as before the fill, and every
/// page of the range loses its table entry while its directories remain.
pub proof fn lemma_map_unmap_round_trip(
    fa0: FrameAllocator,
    fa1: FrameAllocator,
    fa2: FrameAllocator,
    area0: MapArea,
    area1: MapArea,
    area2: MapArea,
    pt0: PageTable,
    pt1: PageTable,
    pt2: PageTable,
)
    requires
        area0.frames() == Map::<u64, u64>::empty(),
        area0.data_frames.spec_len() == 0,
        pt1.wf(),
        // the fill: frames cover the range, the pool shrank by exactly the
        // committed frames, and no directory frame was added
        fa1.free_count() == fa0.free_count() - (area1.data_frames.spec_len()
            - area0.data_frames.spec_len()) - (pt1.dir1.spec_len() - pt0.dir1.spec_len()) - (
        pt1.dir0.spec_len() - pt0.dir0.spec_len()),
        pt1.dir1.spec_len() == pt0.dir1.spec_len(),
        pt1.dir0.spec_len() == pt0.dir0.spec_len(),
        forall|v: u64| area1.vpn_range.has(v) ==> #[trigger] pt1.mapping().contains_key(v),
        // the unmap: the pool grew back by the region's frames, every page of
        // the range lost its entry, and the directories are untouched
        fa2.free_count() == fa1.free_count() + area1.data_frames.spec_len(),
        area2.data_frames.spec_len() == 0,
        forall|v: u64|
            area1.vpn_range.has(v) ==> !(#[trigger] pt2.mapping().contains_key(v)),
        pt2.dir1@ == pt1.dir1@,
        pt2.dir0@ == pt1.dir0@,
    ensures
        fa2.free_count() == fa0.free_count(),
        forall|v: u64|
            area1.vpn_range.has(v) ==> !(#[trigger] pt2.mapping().contains_key(v))
                && pt2.dirs_present(v),
{
    assert forall|v: u64|
        area1.vpn_range.has(v) implies !(#[trigger] pt2.mapping().contains_key(v))
        && pt2.dirs_present(v) by {
        assert(pt1.mapping().contains_key(v));
        assert(pt1.dir0@.contains_key(v >> 9));
        assert((v >> 9) >> 9 == v >> 18) by (bit_vector);
        assert(pt1.dir1@.contains_key(v >> 18));
    };
}

} // verus!
