//! Tests of the boot path, break adjustment, the access checks, and the
//! byte-window copy helper.

use kcore::addr::VirtAddr;
use kcore::config::{KERNEL_STACK_SIZE, PAGE_SIZE, TRAMPOLINE};
use kcore::frame_alloc::FrameAllocator;
use kcore::memory_area::{MapPermission, MapType, PERM_R, PERM_W, PERM_X};
use kcore::memory_set::{kernel_stack_position, KernelLayout, MemorySet};
use kcore::scheduler::TaskManager;
use kcore::syscall;
use kcore::task::{TaskContext, TaskControlBlock, TaskInfo, TaskStatus, TrapContext};

const POOL_BASE: u64 = 0x80000;
const POOL_END: u64 = 0x80100;

fn layout() -> KernelLayout {
    KernelLayout {
        text_start: 0x8020_0000,
        text_end: 0x8020_4000,
        rodata_start: 0x8020_4000,
        rodata_end: 0x8020_6000,
        data_start: 0x8020_6000,
        data_end: 0x8020_8000,
        bss_start: 0x8020_8000,
        bss_end: 0x8021_0000,
        kernel_end: 0x8021_0000,
    }
}

#[test]
fn init_builds_kernel_space() {
    let kernel = kcore::init(layout(), POOL_BASE, POOL_END, 0x800f0).unwrap();
    let ks = &kernel.kernel_space;
    assert_eq!(ks.areas.len(), 5);
    for area in &ks.areas {
        assert_eq!(area.map_type, MapType::Identical);
    }
    // Identity mapping: a kernel text page translates to itself, readable
    // and executable but not writable.
    let vpn = 0x8020_0000 / PAGE_SIZE;
    let pte = ks.page_table.translate(vpn).unwrap();
    assert_eq!(pte.get_ppn(), vpn);
    assert!(pte.readable() && pte.executable() && !pte.writable());
    // A read-only data page is not writable or executable.
    let pte = ks.page_table.translate(0x8020_4000 / PAGE_SIZE).unwrap();
    assert!(pte.readable() && !pte.writable() && !pte.executable());
    // A data page is writable but not executable.
    let pte = ks.page_table.translate(0x8020_6000 / PAGE_SIZE).unwrap();
    assert!(pte.readable() && pte.writable() && !pte.executable());
}

#[test]
fn kernel_stacks_hang_below_the_trampoline() {
    let (bottom0, top0) = kernel_stack_position(0);
    assert_eq!(top0, TRAMPOLINE);
    assert_eq!(bottom0, TRAMPOLINE - KERNEL_STACK_SIZE);
    let (bottom1, top1) = kernel_stack_position(1);
    assert_eq!(top1, TRAMPOLINE - (KERNEL_STACK_SIZE + PAGE_SIZE));
    assert_eq!(bottom1, top1 - KERNEL_STACK_SIZE);
    // The guard page separates stack one from stack zero.
    assert_eq!(bottom0 - top1, PAGE_SIZE);
}

fn heap_task(fa: &mut FrameAllocator) -> TaskControlBlock {
    let mut ms = MemorySet::new_bare(fa).unwrap();
    let urw = MapPermission::from_bits(PERM_R | PERM_W | 16).unwrap();
    // The zero-length break-adjustable region.
    ms.insert_framed_area_lazy(fa, VirtAddr(0x30000), VirtAddr(0x30000), urw)
        .unwrap();
    TaskControlBlock {
        task_status: TaskStatus::Running,
        task_cx: TaskContext::zero_init(),
        task_info: TaskInfo::new(),
        memory_set: ms,
        trap_cx: TrapContext::app_init_context(0, 0, 0, 0, 0, 0),
        heap_bottom: 0x30000,
        program_brk: 0x30000,
    }
}

#[test]
fn sbrk_grows_and_shrinks_the_break_region() {
    let mut fa = FrameAllocator::new(POOL_BASE, POOL_END);
    let task = heap_task(&mut fa);
    let mut tm = TaskManager::new(vec![task]);
    // Growing returns the previous break.
    let r = syscall::sys_sbrk(&mut tm, &mut fa, 0x2000);
    assert_eq!(r, 0x30000);
    assert_eq!(tm.tasks[0].program_brk, 0x32000);
    let range = tm.tasks[0].memory_set.areas[0].get_vpn_range();
    assert_eq!(range.get_start().0, 0x30);
    assert_eq!(range.get_end().0, 0x32);
    // Shrinking returns the previous break too.
    let r = syscall::sys_sbrk(&mut tm, &mut fa, -0x1000);
    assert_eq!(r, 0x32000);
    assert_eq!(tm.tasks[0].program_brk, 0x31000);
    // A break below the region's bottom is refused.
    let r = syscall::sys_sbrk(&mut tm, &mut fa, -0x8000);
    assert_eq!(r, -1);
    assert_eq!(tm.tasks[0].program_brk, 0x31000);
}

#[test]
fn access_checks_enforce_permissions() {
    let mut fa = FrameAllocator::new(POOL_BASE, POOL_END);
    let mut ms = MemorySet::new_bare(&mut fa).unwrap();
    let r = MapPermission::from_bits(PERM_R).unwrap();
    let rx = MapPermission::from_bits(PERM_R | PERM_X).unwrap();
    ms.insert_framed_area_lazy(&mut fa, VirtAddr(0x10000), VirtAddr(0x11000), r)
        .unwrap();
    ms.insert_framed_area_lazy(&mut fa, VirtAddr(0x20000), VirtAddr(0x21000), rx)
        .unwrap();
    let task = TaskControlBlock {
        task_status: TaskStatus::Running,
        task_cx: TaskContext::zero_init(),
        task_info: TaskInfo::new(),
        memory_set: ms,
        trap_cx: TrapContext::app_init_context(0, 0, 0, 0, 0, 0),
        heap_bottom: 0x30000,
        program_brk: 0x30000,
    };
    let mut tm = TaskManager::new(vec![task]);
    assert!(tm.check_readable(&mut fa, VirtAddr(0x10123)).is_ok());
    assert!(tm.check_writeable(&mut fa, VirtAddr(0x10123)).is_err());
    assert!(tm.check_executable(&mut fa, VirtAddr(0x10123)).is_err());
    assert!(tm.check_executable(&mut fa, VirtAddr(0x20123)).is_ok());
    assert!(tm.check_readable(&mut fa, VirtAddr(0x99999)).is_err());
}

#[test]
fn copy_fills_windows_in_order() {
    let origin: Vec<u8> = (0u32..10).map(|i| i as u8).collect();
    let mut target = vec![vec![0u8; 3], vec![0u8; 4], vec![0u8; 3]];
    syscall::copy(&origin, &mut target);
    assert_eq!(target[0], vec![0, 1, 2]);
    assert_eq!(target[1], vec![3, 4, 5, 6]);
    assert_eq!(target[2], vec![7, 8, 9]);
}

#[test]
fn split_at_or_after_end_keeps_all_frames_left() {
    let mut fa = FrameAllocator::new(POOL_BASE, POOL_END);
    let mut ms = MemorySet::new_bare(&mut fa).unwrap();
    let rw = MapPermission::from_bits(PERM_R | PERM_W).unwrap();
    ms.insert_framed_area(&mut fa, VirtAddr(0x10000), VirtAddr(0x12000), rw)
        .unwrap();
    let area = ms.areas.remove(0);
    let (left, right) = area.split(kcore::addr::VirtPageNum(0x12));
    assert_eq!(left.data_frames.pairs.len(), 2);
    assert_eq!(right.data_frames.pairs.len(), 0);
    assert_eq!(left.get_vpn_range().get_start().0, 0x10);
    assert_eq!(left.get_vpn_range().get_end().0, 0x12);
}
