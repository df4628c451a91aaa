//! End-to-end tests of the memory subsystem: region insertion, lazy and
//! eager frame commitment, splitting, unmapping, and byte-level round trips.

use kcore::addr::{VirtAddr, VirtPageNum};
use kcore::config::{PAGE_SIZE, TRAMPOLINE, TRAP_CONTEXT_BASE};
use kcore::error::{AreaError, MMError};
use kcore::frame_alloc::FrameAllocator;
use kcore::memory_area::{MapArea, MapPermission, MapType, PERM_R, PERM_W, PERM_X};
use kcore::memory_set::MemorySet;
use kcore::phys_mem::PhysMemory;

const POOL_BASE: u64 = 0x80000;
const POOL_END: u64 = 0x80100;

fn fresh() -> (FrameAllocator, PhysMemory, MemorySet) {
    let mut fa = FrameAllocator::new(POOL_BASE, POOL_END);
    let mem = PhysMemory::new(POOL_BASE, (POOL_END - POOL_BASE) as usize);
    let ms = MemorySet::new_bare(&mut fa).unwrap();
    (fa, mem, ms)
}

fn rw() -> MapPermission {
    MapPermission::from_bits(PERM_R | PERM_W).unwrap()
}

#[test]
fn disjoint_regions_coexist() {
    let (mut fa, _mem, mut ms) = fresh();
    let r1 = ms.map_memory(&mut fa, VirtAddr(0x10000), VirtAddr(0x12000), rw());
    assert!(r1.is_ok());
    let r2 = ms.map_memory(&mut fa, VirtAddr(0x20000), VirtAddr(0x23000), rw());
    assert!(r2.is_ok());
    assert_eq!(ms.areas.len(), 2);
    assert_eq!(ms.areas[0].get_vpn_range().get_start().0, 0x10);
    assert_eq!(ms.areas[0].get_vpn_range().get_end().0, 0x12);
    assert_eq!(ms.areas[1].get_vpn_range().get_start().0, 0x20);
    assert_eq!(ms.areas[1].get_vpn_range().get_end().0, 0x23);
}

#[test]
fn overlapping_region_refused() {
    let (mut fa, _mem, mut ms) = fresh();
    ms.map_memory(&mut fa, VirtAddr(0x10000), VirtAddr(0x13000), rw())
        .unwrap();
    let r = ms.map_memory(&mut fa, VirtAddr(0x12000), VirtAddr(0x15000), rw());
    assert_eq!(r, Err(MMError::AreaError(AreaError::ContainMapped)));
    assert_eq!(ms.areas.len(), 1);
    assert_eq!(ms.areas[0].get_vpn_range().get_start().0, 0x10);
    assert_eq!(ms.areas[0].get_vpn_range().get_end().0, 0x13);
}

#[test]
fn split_partitions_frames() {
    let (mut fa, _mem, mut ms) = fresh();
    ms.insert_framed_area(&mut fa, VirtAddr(0x10000), VirtAddr(0x14000), rw())
        .unwrap();
    let area = ms.areas.remove(0);
    let total: Vec<(u64, u64)> = area.data_frames.pairs.clone();
    assert_eq!(total.len(), 4);
    let (left, right) = area.split(VirtPageNum(0x12));
    for (k, v) in &left.data_frames.pairs {
        assert!(*k < 0x12);
        assert!(total.contains(&(*k, *v)));
    }
    for (k, v) in &right.data_frames.pairs {
        assert!(*k >= 0x12);
        assert!(total.contains(&(*k, *v)));
    }
    assert_eq!(
        left.data_frames.pairs.len() + right.data_frames.pairs.len(),
        total.len()
    );
    assert_eq!(left.get_vpn_range().get_start().0, 0x10);
    assert_eq!(left.get_vpn_range().get_end().0, 0x12);
    assert_eq!(right.get_vpn_range().get_start().0, 0x12);
    assert_eq!(right.get_vpn_range().get_end().0, 0x14);
}

#[test]
fn split_at_or_before_start_keeps_all_frames_right() {
    let (mut fa, _mem, mut ms) = fresh();
    ms.insert_framed_area(&mut fa, VirtAddr(0x10000), VirtAddr(0x12000), rw())
        .unwrap();
    let area = ms.areas.remove(0);
    let (left, right) = area.split(VirtPageNum(0x10));
    assert_eq!(left.data_frames.pairs.len(), 0);
    assert_eq!(right.data_frames.pairs.len(), 2);
}

#[test]
fn map_then_unmap_restores_free_pool() {
    let (mut fa, _mem, mut ms) = fresh();
    // Establish the directory frames first: the table never reclaims them.
    ms.insert_framed_area(&mut fa, VirtAddr(0x10000), VirtAddr(0x13000), rw())
        .unwrap();
    ms.unmap_memory(&mut fa, VirtAddr(0x10000), VirtAddr(0x13000))
        .unwrap();
    // A second fill over the same pages needs no new directories.
    let before = fa.free_frames();
    ms.insert_framed_area(&mut fa, VirtAddr(0x10000), VirtAddr(0x13000), rw())
        .unwrap();
    assert_eq!(fa.free_frames(), before - 3);
    ms.unmap_memory(&mut fa, VirtAddr(0x10000), VirtAddr(0x13000))
        .unwrap();
    assert_eq!(fa.free_frames(), before);
    // Every page of the range now fails translation as an invalid page.
    for vpn in 0x10..0x13u64 {
        let r = ms.page_table.translate(vpn);
        assert_eq!(
            r,
            Err(MMError::PageError(kcore::error::PageError::PageInvalid))
        );
    }
}

#[test]
fn unmap_of_critical_pages_refused() {
    let (mut fa, _mem, mut ms) = fresh();
    let r = ms.unmap_memory(
        &mut fa,
        VirtAddr(TRAMPOLINE),
        VirtAddr(TRAMPOLINE + PAGE_SIZE),
    );
    assert_eq!(r, Err(MMError::AreaError(AreaError::CriticalArea)));
    let r = ms.unmap_memory(
        &mut fa,
        VirtAddr(TRAP_CONTEXT_BASE),
        VirtAddr(TRAP_CONTEXT_BASE + PAGE_SIZE),
    );
    assert_eq!(r, Err(MMError::AreaError(AreaError::CriticalArea)));
    // A huge range containing the critical pages is refused the same way.
    let r = ms.unmap_memory(&mut fa, VirtAddr(0), VirtAddr(TRAMPOLINE + PAGE_SIZE));
    assert_eq!(r, Err(MMError::AreaError(AreaError::CriticalArea)));
}

#[test]
fn unmap_of_uncovered_range_refused() {
    let (mut fa, _mem, mut ms) = fresh();
    ms.map_memory(&mut fa, VirtAddr(0x10000), VirtAddr(0x12000), rw())
        .unwrap();
    let r = ms.unmap_memory(&mut fa, VirtAddr(0x10000), VirtAddr(0x14000));
    assert_eq!(r, Err(MMError::AreaError(AreaError::ContainUnmapped)));
}

#[test]
fn unmap_splits_overlapping_region() {
    let (mut fa, _mem, mut ms) = fresh();
    ms.insert_framed_area(&mut fa, VirtAddr(0x10000), VirtAddr(0x14000), rw())
        .unwrap();
    ms.unmap_memory(&mut fa, VirtAddr(0x11000), VirtAddr(0x13000))
        .unwrap();
    assert_eq!(ms.areas.len(), 2);
    let mut starts: Vec<(u64, u64)> = ms
        .areas
        .iter()
        .map(|a| {
            (
                a.get_vpn_range().get_start().0,
                a.get_vpn_range().get_end().0,
            )
        })
        .collect();
    starts.sort();
    assert_eq!(starts, vec![(0x10, 0x11), (0x13, 0x14)]);
    assert!(ms.page_table.translate(0x11).is_err());
    assert!(ms.page_table.translate(0x12).is_err());
    assert!(ms.page_table.translate(0x10).is_ok());
    assert!(ms.page_table.translate(0x13).is_ok());
}

#[test]
fn lazy_insert_allocates_nothing_until_touched() {
    let (mut fa, _mem, mut ms) = fresh();
    let before = fa.free_frames();
    ms.insert_framed_area_lazy(&mut fa, VirtAddr(0x10000), VirtAddr(0x14000), rw())
        .unwrap();
    assert_eq!(fa.free_frames(), before);
    assert_eq!(ms.areas[0].data_frames.pairs.len(), 0);
    // Touching one page commits exactly one frame (plus the walk's two
    // directory frames on this first touch).
    let pte = ms.transform(&mut fa, VirtPageNum(0x11)).unwrap();
    assert!(pte.readable() && pte.writable() && pte.valid());
    assert_eq!(ms.areas[0].data_frames.pairs.len(), 1);
    assert_eq!(fa.free_frames(), before - 3);
    // Forcing the rest commits one frame per remaining page.
    let mut area = ms.areas.remove(0);
    area.check_all_page(&mut ms.page_table, &mut fa).unwrap();
    assert_eq!(area.data_frames.pairs.len(), 4);
    assert_eq!(fa.free_frames(), before - 6);
    ms.areas.insert(0, area);
}

#[test]
fn eager_insert_allocates_all_frames_immediately() {
    let (mut fa, _mem, mut ms) = fresh();
    // First round establishes the directory frames.
    ms.insert_framed_area(&mut fa, VirtAddr(0x10000), VirtAddr(0x14000), rw())
        .unwrap();
    ms.unmap_memory(&mut fa, VirtAddr(0x10000), VirtAddr(0x14000))
        .unwrap();
    let before = fa.free_frames();
    ms.insert_framed_area(&mut fa, VirtAddr(0x10000), VirtAddr(0x14000), rw())
        .unwrap();
    assert_eq!(ms.areas[0].data_frames.pairs.len(), 4);
    assert_eq!(fa.free_frames(), before - 4);
}

#[test]
fn copy_data_round_trip() {
    let (mut fa, mut mem, mut ms) = fresh();
    ms.insert_framed_area(&mut fa, VirtAddr(0x10000), VirtAddr(0x12000), rw())
        .unwrap();
    let data: Vec<u8> = (0..8192u32).map(|i| (i % 251) as u8).collect();
    let mut area = ms.areas.remove(0);
    area.copy_data(&mut ms.page_table, &mut fa, &mut mem, &data)
        .unwrap();
    ms.areas.insert(0, area);
    for page in 0..2u64 {
        let pte = ms.transform(&mut fa, VirtPageNum(0x10 + page)).unwrap();
        let bytes = mem.read_range(pte.get_ppn(), 0, 4096);
        for off in 0..4096usize {
            assert_eq!(bytes[off], data[(page as usize) * 4096 + off]);
        }
    }
}

#[test]
fn transform_outside_any_region_is_not_included() {
    let (mut fa, _mem, mut ms) = fresh();
    let r = ms.transform(&mut fa, VirtPageNum(0x42));
    assert_eq!(r, Err(MMError::AreaError(AreaError::NotInclude)));
}

#[test]
fn trampoline_is_mapped_outside_regions() {
    let (mut fa, _mem, mut ms) = fresh();
    ms.map_trampoline(&mut fa, 0x1234).unwrap();
    let pte = ms
        .page_table
        .translate(kcore::config::TRAMPOLINE_VPN)
        .unwrap();
    assert_eq!(pte.get_ppn(), 0x1234);
    assert!(pte.readable() && pte.executable() && pte.valid());
    assert_eq!(ms.areas.len(), 0);
}

#[test]
fn page_table_map_refuses_double_mapping() {
    let mut fa = FrameAllocator::new(POOL_BASE, POOL_END);
    let mut pt = kcore::page_table::PageTable::new(&mut fa).unwrap();
    pt.map(&mut fa, 0x10, 0x80042, PERM_R).unwrap();
    let r = pt.map(&mut fa, 0x10, 0x80043, PERM_R);
    assert_eq!(
        r,
        Err(MMError::PageError(kcore::error::PageError::PageAlreadyAlloc))
    );
    pt.unmap(0x10).unwrap();
    let r = pt.unmap(0x10);
    assert_eq!(
        r,
        Err(MMError::PageError(kcore::error::PageError::PageInvalid))
    );
    let r = pt.unmap(0x99999);
    assert_eq!(
        r,
        Err(MMError::PageError(kcore::error::PageError::DirPageInvalid))
    );
}

#[test]
fn frame_allocator_rejects_double_free() {
    let mut fa = FrameAllocator::new(POOL_BASE, POOL_END);
    let f = fa.frame_alloc().unwrap();
    assert!(fa.frame_dealloc(f));
    assert!(!fa.frame_dealloc(f));
    assert!(!fa.frame_dealloc(POOL_END + 5));
}

#[test]
fn frame_allocator_exhausts_exactly() {
    let mut fa = FrameAllocator::new(0x1000, 0x1002);
    let a = fa.frame_alloc().unwrap();
    let b = fa.frame_alloc().unwrap();
    assert_ne!(a, b);
    assert!(fa.frame_alloc().is_none());
    assert!(fa.frame_dealloc(b));
    assert_eq!(fa.frame_alloc(), Some(b));
}

#[test]
fn permission_bits_are_checked() {
    assert!(MapPermission::from_bits(PERM_R | PERM_W | PERM_X).is_some());
    assert!(MapPermission::from_bits(0x20).is_none());
    assert!(MapPermission::from_bits(0x01).is_none());
    let p = MapPermission::from_bits(PERM_R).unwrap();
    let q = MapPermission::from_bits(PERM_W).unwrap();
    assert_eq!(p.union(q).get_bits(), PERM_R | PERM_W);
}
