//! Tests of the scheduler, dispatch accounting, the loader, and the
//! memory-request syscall boundary.

use kcore::config::PAGE_SIZE;
use kcore::frame_alloc::FrameAllocator;
use kcore::memory_set::MemorySet;
use kcore::phys_mem::PhysMemory;
use kcore::scheduler::TaskManager;
use kcore::syscall;
use kcore::task::{TaskContext, TaskControlBlock, TaskInfo, TaskStatus, TrapContext};

const POOL_BASE: u64 = 0x80000;
const POOL_END: u64 = 0x80100;

fn make_task(fa: &mut FrameAllocator, status: TaskStatus) -> TaskControlBlock {
    TaskControlBlock {
        task_status: status,
        task_cx: TaskContext::zero_init(),
        task_info: TaskInfo::new(),
        memory_set: MemorySet::new_bare(fa).unwrap(),
        trap_cx: TrapContext::app_init_context(0x1000, 0x2000, 0, 0, 0, 0),
        heap_bottom: 0x30000,
        program_brk: 0x30000,
    }
}

fn make_manager(statuses: &[TaskStatus]) -> (FrameAllocator, TaskManager) {
    let mut fa = FrameAllocator::new(POOL_BASE, POOL_END);
    let mut tasks = Vec::new();
    for s in statuses {
        tasks.push(make_task(&mut fa, *s));
    }
    (fa, TaskManager::new(tasks))
}

#[test]
fn round_robin_picks_first_ready_after_current() {
    let statuses = [
        TaskStatus::Running,
        TaskStatus::Exited,
        TaskStatus::Ready,
        TaskStatus::Exited,
        TaskStatus::Exited,
        TaskStatus::Ready,
    ];
    let (_fa, tm) = make_manager(&statuses);
    assert_eq!(tm.find_next_task(), Some(2));
}

#[test]
fn round_robin_wraps_around() {
    let statuses = [
        TaskStatus::Ready,
        TaskStatus::Exited,
        TaskStatus::Exited,
        TaskStatus::Running,
    ];
    let (_fa, mut tm) = make_manager(&statuses);
    tm.current_task = 3;
    assert_eq!(tm.find_next_task(), Some(0));
}

#[test]
fn exhaustion_reported_when_none_ready() {
    let statuses = [TaskStatus::Exited, TaskStatus::Exited];
    let (_fa, tm) = make_manager(&statuses);
    assert_eq!(tm.find_next_task(), None);
    let statuses = [TaskStatus::Exited, TaskStatus::Exited];
    let (_fa, mut tm) = make_manager(&statuses);
    assert_eq!(tm.run_next_task(10), None);
}

#[test]
fn run_next_task_switches_and_stamps_dispatch() {
    let statuses = [TaskStatus::Running, TaskStatus::Ready];
    let (_fa, mut tm) = make_manager(&statuses);
    let plan = tm.run_next_task(77).unwrap();
    assert_eq!(plan, (0, 1));
    assert_eq!(tm.current_task, 1);
    assert_eq!(tm.tasks[1].task_status, TaskStatus::Running);
    assert!(tm.tasks[1].task_info.is_dispatched);
    assert_eq!(tm.tasks[1].task_info.start_time, 77);
}

#[test]
fn dispatch_stamps_start_time_exactly_once() {
    let mut info = TaskInfo::new();
    info.dispatch(42);
    assert!(info.is_dispatched);
    assert_eq!(info.start_time, 42);
    info.dispatch(99);
    assert_eq!(info.start_time, 42);
}

#[test]
fn syscall_counter_accumulates_per_id() {
    let mut info = TaskInfo::new();
    info.syscall_counter(64);
    info.syscall_counter(64);
    info.syscall_counter(93);
    assert_eq!(info.syscall_times.get(64), Some(2));
    assert_eq!(info.syscall_times.get(93), Some(1));
    assert_eq!(info.syscall_times.get(124), None);
}

#[test]
fn yield_keeps_fairness_and_returns_success() {
    let statuses = [TaskStatus::Running, TaskStatus::Ready];
    let (_fa, mut tm) = make_manager(&statuses);
    let (code, plan) = syscall::sys_yield(&mut tm, 5);
    assert_eq!(code, 0);
    assert_eq!(plan, Some((0, 1)));
    assert_eq!(tm.tasks[0].task_status, TaskStatus::Ready);
    assert_eq!(tm.tasks[1].task_status, TaskStatus::Running);
}

#[test]
fn exit_is_terminal_and_reports_exhaustion() {
    let statuses = [TaskStatus::Running];
    let (_fa, mut tm) = make_manager(&statuses);
    let plan = syscall::sys_exit(&mut tm, 5);
    assert_eq!(plan, None);
    assert_eq!(tm.tasks[0].task_status, TaskStatus::Exited);
}

#[test]
fn mmap_rejects_bad_inputs_without_inserting() {
    let statuses = [TaskStatus::Running];
    let (mut fa, mut tm) = make_manager(&statuses);
    // Misaligned start.
    assert_eq!(syscall::sys_mmap(&mut tm, &mut fa, 0x10001, 0x1000, 7), -1);
    // Permission bits empty.
    assert_eq!(syscall::sys_mmap(&mut tm, &mut fa, 0x10000, 0x1000, 0), -1);
    // Permission bits outside read/write/execute.
    assert_eq!(syscall::sys_mmap(&mut tm, &mut fa, 0x10000, 0x1000, 8), -1);
    assert_eq!(tm.tasks[0].memory_set.areas.len(), 0);
    // A well-formed request succeeds.
    assert_eq!(syscall::sys_mmap(&mut tm, &mut fa, 0x10000, 0x1000, 3), 0);
    assert_eq!(tm.tasks[0].memory_set.areas.len(), 1);
}

#[test]
fn munmap_requires_alignment_and_coverage() {
    let statuses = [TaskStatus::Running];
    let (mut fa, mut tm) = make_manager(&statuses);
    assert_eq!(syscall::sys_mmap(&mut tm, &mut fa, 0x10000, 0x2000, 3), 0);
    assert_eq!(syscall::sys_munmap(&mut tm, &mut fa, 0x10001, 0xfff), -1);
    assert_eq!(syscall::sys_munmap(&mut tm, &mut fa, 0x10000, 0x3000), -1);
    assert_eq!(syscall::sys_munmap(&mut tm, &mut fa, 0x10000, 0x2000), 0);
    assert_eq!(tm.tasks[0].memory_set.areas.len(), 0);
}

#[test]
fn time_val_splits_microseconds() {
    let tv = syscall::TimeVal::new(3_234_567);
    assert_eq!(tv.sec, 3);
    assert_eq!(tv.usec, 234_567);
}

#[test]
fn task_report_collects_counts_and_time() {
    let statuses = [TaskStatus::Running];
    let (_fa, mut tm) = make_manager(&statuses);
    tm.run_first_task(100);
    tm.syscall_counter(64);
    tm.syscall_counter(64);
    let report = syscall::current_task_info(&tm, 150);
    assert_eq!(report.status, TaskStatus::Running);
    assert_eq!(report.time, 50);
    assert_eq!(report.syscall_times[64], 2);
    assert_eq!(report.syscall_times[63], 0);
}

#[test]
fn loader_builds_space_from_image() {
    let mut fa = FrameAllocator::new(POOL_BASE, POOL_END);
    let mut mem = PhysMemory::new(POOL_BASE, (POOL_END - POOL_BASE) as usize);
    let image = build_image();
    let (ms, ustack_top, entry) =
        MemorySet::from_elf(&mut fa, &mut mem, &image, 0x800f0).unwrap();
    assert_eq!(entry, 0x10078);
    assert_eq!(ustack_top % PAGE_SIZE, 0);
    // One loadable segment, the stack, the break region, the trap context.
    assert_eq!(ms.areas.len(), 4);
    // The segment's file bytes land at the start of its first page.
    let pte = ms.page_table.translate(0x10).unwrap();
    let bytes = mem.read_range(pte.get_ppn(), 0, 4);
    assert_eq!(bytes, vec![0xaa, 0xbb, 0xcc, 0xdd]);
}

/// A minimal 64-bit little-endian image: one loadable segment at 0x10000
/// whose data holds four marker bytes at its entry point.
fn build_image() -> Vec<u8> {
    let mut b = vec![0u8; 0x100];
    b[0] = 0x7f;
    b[1] = 0x45;
    b[2] = 0x4c;
    b[3] = 0x46;
    // entry point
    put64(&mut b, 24, 0x10078);
    // program header table offset
    put64(&mut b, 32, 64);
    // program header entry size and count
    put16(&mut b, 54, 56);
    put16(&mut b, 56, 1);
    // one PT_LOAD header at offset 64
    put32(&mut b, 64, 1); // type
    put32(&mut b, 68, 5); // flags: readable and executable
    put64(&mut b, 72, 0x78); // data offset in the image
    put64(&mut b, 80, 0x10000); // load address
    put64(&mut b, 96, 4); // bytes in the image
    put64(&mut b, 104, 0x1000); // bytes in memory
    b[0x78] = 0xaa;
    b[0x79] = 0xbb;
    b[0x7a] = 0xcc;
    b[0x7b] = 0xdd;
    b
}

fn put16(b: &mut [u8], off: usize, v: u16) {
    b[off] = v as u8;
    b[off + 1] = (v >> 8) as u8;
}

fn put32(b: &mut [u8], off: usize, v: u32) {
    for i in 0..4 {
        b[off + i] = (v >> (8 * i)) as u8;
    }
}

fn put64(b: &mut [u8], off: usize, v: u64) {
    for i in 0..8 {
        b[off + i] = (v >> (8 * i)) as u8;
    }
}
