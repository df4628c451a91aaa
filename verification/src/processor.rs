//! The per-core processor state: the task currently executing (ownership
//! moves out for a switch and back in afterwards) and the dedicated idle
//! context every switch pivots through.

use vstd::prelude::*;
use crate::frame_alloc::FrameAllocator;
use crate::memory_area::MapPermission;
use crate::addr::VirtAddr;
use crate::task::{TaskContext, TaskControlBlock, TaskStatus};

verus! {

/// Per-core execution state.
pub struct Processor {
    /// The task currently executing on this core, if any.
    pub current: Option<TaskControlBlock>,
    /// The idle control flow every switch pivots through.
    pub idle_task_cx: TaskContext,
}

impl Processor {
    /// An empty processor: no current task, a zeroed idle context.
    pub fn new() -> (r: Processor)
        ensures
            r.current.is_none(),
            r.idle_task_cx.ra == 0,
            r.idle_task_cx.sp == 0,
    {
        Processor { current: None, idle_task_cx: TaskContext::zero_init() }
    }

    /// Move the current task out, leaving nothing in its place.
    pub fn take_current(&mut self) -> (r: Option<TaskControlBlock>)
        ensures
            final(self).current.is_none(),
            final(self).idle_task_cx == old(self).idle_task_cx,
            r == old(self).current,
    {
        self.current.take()
    }

    /// Whether a task currently occupies this core.
    pub fn has_current(&self) -> (r: bool)
        ensures
            r == self.current.is_some(),
    {
        self.current.is_some()
    }

    /// Take a fetched task into execution: mark it running and make it the
    /// current task, handing back its saved context for the low-level switch.
    pub fn dispatch_task(&mut self, task: TaskControlBlock, now: u64) -> (r: TaskContext)
        ensures
            final(self).current.is_some(),
            final(self).current.unwrap().task_status == TaskStatus::Running,
            final(self).current.unwrap().task_info.is_dispatched,
            final(self).current.unwrap().task_cx == task.task_cx,
            final(self).current.unwrap().memory_set == task.memory_set,
            final(self).current.unwrap().trap_cx == task.trap_cx,
            final(self).current.unwrap().heap_bottom == task.heap_bottom,
            final(self).current.unwrap().program_brk == task.program_brk,
            final(self).current.unwrap().task_info.start_time == if task.task_info.is_dispatched {
                task.task_info.start_time
            } else {
                now
            },
            final(self).current.unwrap().task_info.syscall_times == task.task_info.syscall_times,
            final(self).idle_task_cx == old(self).idle_task_cx,
            r == task.task_cx,
    {
        let mut task = task;
        task.task_status = TaskStatus::Running;
        let mut info = &mut task.task_info;
        info.dispatch(now);
        let cx = task.task_cx;
        self.current = Some(task);
        cx
    }

    /// Count one syscall invocation against the current task.
    pub fn update_task_info(&mut self, syscall_id: u64, add_flag: bool)
        requires
            old(self).current.is_some(),
            old(self).current.unwrap().task_info.syscall_times.wf(),
        ensures
            final(self).current.is_some(),
            final(self).current.unwrap().task_info.syscall_times.wf(),
            final(self).idle_task_cx == old(self).idle_task_cx,
            !add_flag ==> final(self).current.unwrap().task_info.syscall_times@ == old(
                self,
            ).current.unwrap().task_info.syscall_times@,
            add_flag ==> final(self).current.unwrap().task_info.syscall_times@ == old(
                self,
            ).current.unwrap().task_info.syscall_times@.insert(
                syscall_id,
                if old(self).current.unwrap().task_info.syscall_times@.contains_key(syscall_id) {
                    if old(self).current.unwrap().task_info.syscall_times@[syscall_id]
                        == u32::MAX {
                        u32::MAX
                    } else {
                        (old(self).current.unwrap().task_info.syscall_times@[syscall_id]
                            + 1) as u32
                    }
                } else {
                    1u32
                },
            ),
    {
        match &mut self.current {
            Some(task) => {
                if add_flag {
                    let mut info = &mut task.task_info;
                    info.syscall_counter(syscall_id);
                }
            },
            None => {},
        }
    }

    /// Serve a memory-map request against the current task's address space.
    pub fn get_current_task_mmap(
        &mut self,
        fa: &mut FrameAllocator,
        start: u64,
        len: u64,
        port: u64,
    ) -> (r: i64)
        requires
            old(self).current.is_some(),
            old(fa).wf(),
            old(self).current.unwrap().memory_set.wf(),
            old(self).current.unwrap().memory_set.frames_ok(*old(fa)),
            start + len < crate::config::VA_SIZE,
        ensures
            final(fa).wf(),
            final(self).current.is_some(),
            final(self).current.unwrap().memory_set.wf(),
            final(self).current.unwrap().memory_set.frames_ok(*final(fa)),
            r == 0 || r == -1,
            start % crate::config::PAGE_SIZE != 0 ==> r == -1,
            port & !0x7 != 0 || port & 0x7 == 0 ==> r == -1,
            start % crate::config::PAGE_SIZE == 0 && port & !0x7 == 0 && port & 0x7 != 0 ==> ((r
                == 0) <==> (!crate::memory_set::span_critical(
                VirtAddr(start),
                VirtAddr((start + len) as u64),
            ) && !crate::memory_set::span_overlaps(
                old(self).current.unwrap().memory_set,
                VirtAddr(start),
                VirtAddr((start + len) as u64),
            ))),
    {
        if start % crate::config::PAGE_SIZE != 0 {
            return -1;
        }
        if port & !0x7 != 0 || port & 0x7 == 0 {
            return -1;
        }
        proof {
            let q = port;
            assert(q & !0x7 == 0 ==> q <= 7) by (bit_vector);
        }
        let bits = ((port as u8) << 1u8) | crate::memory_area::PERM_U;
        proof {
            let p = port as u8;
            assert(p <= 7 ==> ((p << 1u8) | 16) & 0xe1 == 0) by (bit_vector);
        }
        let perm = match MapPermission::from_bits(bits) {
            Some(p) => p,
            None => {
                proof {
                    assert(false);
                }
                MapPermission { bits: 0 }
            },
        };
        match &mut self.current {
            Some(task) => {
                let result = task.memory_set.map_memory(
                    fa,
                    VirtAddr(start),
                    VirtAddr(start + len),
                    perm,
                );
                if result.is_ok() {
                    0
                } else {
                    -1
                }
            },
            None => -1,
        }
    }

    /// Serve a memory-unmap request against the current task's address space.
    pub fn get_current_task_munmap(&mut self, fa: &mut FrameAllocator, start: u64, len: u64) -> (r:
        i64)
        requires
            old(self).current.is_some(),
            old(fa).wf(),
            old(self).current.unwrap().memory_set.wf(),
            old(self).current.unwrap().memory_set.frames_ok(*old(fa)),
            start + len < crate::config::VA_SIZE,
        ensures
            final(fa).wf(),
            final(self).current.is_some(),
            final(self).current.unwrap().memory_set.wf(),
            final(self).current.unwrap().memory_set.frames_ok(*final(fa)),
            r == 0 || r == -1,
            start % crate::config::PAGE_SIZE != 0 ==> r == -1,
            start % crate::config::PAGE_SIZE == 0 ==> ((r == 0) <==> (
            !crate::memory_set::span_critical(VirtAddr(start), VirtAddr((start + len) as u64))
                && old(self).current.unwrap().memory_set.covers_range(
                crate::memory_set::page_span(VirtAddr(start), VirtAddr((start + len) as u64)),
            ))),
    {
        if start % crate::config::PAGE_SIZE != 0 {
            return -1;
        }
        match &mut self.current {
            Some(task) => {
                let result = task.memory_set.unmap_memory(fa, VirtAddr(start), VirtAddr(start + len));
                if result.is_ok() {
                    0
                } else {
                    -1
                }
            },
            None => -1,
        }
    }
}

} // verus!
