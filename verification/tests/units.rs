//! Unit tests of the smaller components: the processor state, the
//! association map, and the image field readers.

use kcore::elf::{read_le16, read_le32, read_le64};
use kcore::frame_alloc::FrameAllocator;
use kcore::keymap::KeyMap;
use kcore::memory_set::MemorySet;
use kcore::processor::Processor;
use kcore::task::{TaskContext, TaskControlBlock, TaskInfo, TaskStatus, TrapContext};

fn make_task(fa: &mut FrameAllocator) -> TaskControlBlock {
    TaskControlBlock {
        task_status: TaskStatus::Ready,
        task_cx: TaskContext::goto_trap_return(0x9000, 0x1234),
        task_info: TaskInfo::new(),
        memory_set: MemorySet::new_bare(fa).unwrap(),
        trap_cx: TrapContext::app_init_context(0x5000, 0x9000, 0, 0, 0, 0),
        heap_bottom: 0,
        program_brk: 0,
    }
}

#[test]
fn processor_moves_tasks_in_and_out() {
    let mut fa = FrameAllocator::new(0x80000, 0x80040);
    let mut processor = Processor::new();
    assert!(!processor.has_current());
    let task = make_task(&mut fa);
    let cx = processor.dispatch_task(task, 3);
    assert_eq!(cx.ra, 0x1234);
    assert_eq!(cx.sp, 0x9000);
    assert!(processor.has_current());
    processor.update_task_info(64, true);
    let taken = processor.take_current().unwrap();
    assert!(!processor.has_current());
    assert_eq!(taken.task_status, TaskStatus::Running);
    assert!(taken.task_info.is_dispatched);
    assert_eq!(taken.task_info.start_time, 3);
    assert_eq!(taken.task_info.syscall_times.get(64), Some(1));
}

#[test]
fn processor_serves_memory_requests() {
    let mut fa = FrameAllocator::new(0x80000, 0x80040);
    let mut processor = Processor::new();
    let task = make_task(&mut fa);
    processor.dispatch_task(task, 1);
    assert_eq!(processor.get_current_task_mmap(&mut fa, 0x10000, 0x1000, 3), 0);
    assert_eq!(processor.get_current_task_mmap(&mut fa, 0x10001, 0x1000, 3), -1);
    assert_eq!(processor.get_current_task_mmap(&mut fa, 0x10000, 0x1000, 0), -1);
    assert_eq!(processor.get_current_task_munmap(&mut fa, 0x10000, 0x1000), 0);
}

#[test]
fn key_map_behaves_like_a_map() {
    let mut m: KeyMap<u64> = KeyMap::new();
    assert_eq!(m.len(), 0);
    m.insert(5, 50);
    m.insert(7, 70);
    m.insert(5, 55);
    assert_eq!(m.len(), 2);
    assert_eq!(m.get(5), Some(55));
    assert_eq!(m.get(7), Some(70));
    assert_eq!(m.get(9), None);
    assert!(m.contains_key(7));
    assert_eq!(m.remove(7), Some(70));
    assert_eq!(m.remove(7), None);
    assert_eq!(m.len(), 1);
    let pair = m.pop_pair().unwrap();
    assert_eq!(pair, (5, 55));
    assert!(m.pop_pair().is_none());
}

#[test]
fn image_fields_read_little_endian() {
    let b = [0x11u8, 0x22, 0x33, 0x44, 0x55, 0x66, 0x77, 0x88];
    assert_eq!(read_le16(&b, 0), 0x2211);
    assert_eq!(read_le32(&b, 0), 0x44332211);
    assert_eq!(read_le64(&b, 0), 0x8877665544332211);
    assert_eq!(read_le16(&b, 3), 0x5544);
}
