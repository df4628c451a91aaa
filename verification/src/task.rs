//! Task control blocks: per-task status, saved execution context, the owned
//! address space, and dispatch accounting.
//!
//! The saved register sets are plain data here; the low-level register swap
//! that consumes them is target assembly and stays outside the library.

use vstd::prelude::*;
use crate::addr::VirtAddr;
use crate::config::{PAGE_SIZE, TRAP_CONTEXT_BASE};
use crate::frame_alloc::FrameAllocator;
use crate::keymap::KeyMap;
use crate::memory_set::{page_span, MemorySet};

verus! {

/// The lifecycle status of a task.  `Exited` is terminal.
#[derive(Clone, Copy, PartialEq, Eq, Structural, Debug)]
pub enum TaskStatus {
    /// Not yet initialized.
    UnInit,
    /// Ready to run.
    Ready,
    /// Currently running.
    Running,
    /// Finished; no transition leaves this state.
    Exited,
}

/// The callee-saved register set the context switch saves and restores:
/// return address, stack pointer, and the twelve saved registers.
#[derive(Clone, Copy, PartialEq, Eq, Debug)]
pub struct TaskContext {
    /// Return address the switch resumes at.
    pub ra: u64,
    /// Stack pointer.
    pub sp: u64,
    /// The saved registers.
    pub s: [u64; 12],
}

impl TaskContext {
    /// An all-zero context.
    pub fn zero_init() -> (r: TaskContext)
        ensures
            r.ra == 0,
            r.sp == 0,
    {
        TaskContext { ra: 0, sp: 0, s: [0; 12] }
    }

    /// A context that resumes at the trap-return path on the given kernel
    /// stack (the address of that path comes from the boot image).
    pub fn goto_trap_return(kstack_ptr: u64, trap_return_addr: u64) -> (r: TaskContext)
        ensures
            r.ra == trap_return_addr,
            r.sp == kstack_ptr,
    {
        TaskContext { ra: trap_return_addr, sp: kstack_ptr, s: [0; 12] }
    }
}

/// The saved user state of a trap: general registers, user status, program
/// counter, and the values the trap path needs to re-enter the kernel.
#[derive(Clone, Copy, PartialEq, Eq, Debug)]
pub struct TrapContext {
    /// The general registers.
    pub x: [u64; 32],
    /// Saved user status register.
    pub sstatus: u64,
    /// Saved user program counter.
    pub sepc: u64,
    /// The kernel's table token, for re-entering the kernel space.
    pub kernel_satp: u64,
    /// The task's kernel stack pointer.
    pub kernel_sp: u64,
    /// Address of the trap handler.
    pub trap_handler: u64,
}

impl TrapContext {
    /// The initial trap context of an application: resume at `entry` with
    /// the stack pointer set to `sp`.
    pub fn app_init_context(
        entry: u64,
        sp: u64,
        sstatus: u64,
        kernel_satp: u64,
        kernel_sp: u64,
        trap_handler: u64,
    ) -> (r: TrapContext)
        ensures
            r.sepc == entry,
            r.x[2] == sp,
            r.sstatus == sstatus,
            r.kernel_satp == kernel_satp,
            r.kernel_sp == kernel_sp,
            r.trap_handler == trap_handler,
    {
        let mut x = [0u64; 32];
        x[2] = sp;
        TrapContext { x, sstatus, sepc: entry, kernel_satp, kernel_sp, trap_handler }
    }
}

/// Dispatch accounting of a task: the first-dispatch timestamp (stamped
/// exactly once) and a per-syscall-identifier invocation counter.
pub struct TaskInfo {
    /// Whether the task has been dispatched at least once.
    pub is_dispatched: bool,
    /// Time of the first dispatch.
    pub start_time: u64,
    /// Invocation counts, keyed by syscall identifier.
    pub syscall_times: KeyMap<u32>,
}

impl TaskInfo {
    /// Accounting of a task that has never run: nothing stamped, no calls.
    pub fn new() -> (r: TaskInfo)
        ensures
            !r.is_dispatched,
            r.start_time == 0,
            r.syscall_times.wf(),
            r.syscall_times@ == Map::<u64, u32>::empty(),
    {
        TaskInfo { is_dispatched: false, start_time: 0, syscall_times: KeyMap::new() }
    }

    /// Stamp the first dispatch: the start time is set exactly once, and
    /// later dispatches change nothing.
    pub fn dispatch(&mut self, now: u64)
        ensures
            final(self).is_dispatched,
            final(self).start_time == if old(self).is_dispatched {
                old(self).start_time
            } else {
                now
            },
            final(self).syscall_times == old(self).syscall_times,
    {
        if !self.is_dispatched {
            self.start_time = now;
            self.is_dispatched = true;
        }
    }

    /// Count one invocation of syscall `id`; a counter already at its
    /// maximum stays put.
    pub fn syscall_counter(&mut self, id: u64)
        requires
            old(self).syscall_times.wf(),
        ensures
            final(self).syscall_times.wf(),
            final(self).is_dispatched == old(self).is_dispatched,
            final(self).start_time == old(self).start_time,
            final(self).syscall_times@ == old(self).syscall_times@.insert(
                id,
                if old(self).syscall_times@.contains_key(id) {
                    if old(self).syscall_times@[id] == u32::MAX {
                        u32::MAX
                    } else {
                        (old(self).syscall_times@[id] + 1) as u32
                    }
                } else {
                    1u32
                },
            ),
    {
        let next = match self.syscall_times.get(id) {
            Some(c) => if c == u32::MAX {
                u32::MAX
            } else {
                c + 1
            },
            None => 1,
        };
        self.syscall_times.insert(id, next);
    }
}

/// A task control block: status, saved context, dispatch accounting, the
/// owned address space, the saved trap state, and the break bookkeeping.
pub struct TaskControlBlock {
    /// Lifecycle status.
    pub task_status: TaskStatus,
    /// Saved callee-saved registers for the context switch.
    pub task_cx: TaskContext,
    /// Dispatch accounting.
    pub task_info: TaskInfo,
    /// The task's address space.
    pub memory_set: MemorySet,
    /// The saved user state (held in the trap-context region of the space).
    pub trap_cx: TrapContext,
    /// Bottom of the break-adjustable region.
    pub heap_bottom: u64,
    /// Current program break.
    pub program_brk: u64,
}

/// What a break adjustment of `size` needs of the task: a page-aligned heap
/// bottom, a break-adjustable framed region starting there whose extent
/// matches the recorded break, a clear window above it, and bounds that keep
/// the arithmetic in range.
pub open spec fn brk_preconditions(tcb: TaskControlBlock, size: i64) -> bool {
    &&& tcb.program_brk <= TRAP_CONTEXT_BASE
    &&& tcb.heap_bottom % PAGE_SIZE == 0
    &&& -(TRAP_CONTEXT_BASE as i64) < size < (TRAP_CONTEXT_BASE as i64)
    &&& exists|j: int|
        0 <= j < tcb.memory_set.areas@.len() && (#[trigger] tcb.memory_set.areas@[j]).vpn_range.start.0
            == tcb.heap_bottom / PAGE_SIZE
    &&& forall|j: int|
        0 <= j < tcb.memory_set.areas@.len() && (#[trigger] tcb.memory_set.areas@[j]).vpn_range.start.0
            == tcb.heap_bottom / PAGE_SIZE ==> tcb.memory_set.areas@[j].map_type
            == crate::memory_area::MapType::Framed
    &&& forall|j1: int, j2: int|
        0 <= j1 < j2 < tcb.memory_set.areas@.len() ==> !((
        #[trigger] tcb.memory_set.areas@[j1]).vpn_range.start.0 == tcb.heap_bottom / PAGE_SIZE && (
        #[trigger] tcb.memory_set.areas@[j2]).vpn_range.start.0 == tcb.heap_bottom / PAGE_SIZE)
    &&& forall|j: int, v: u64|
        #![trigger tcb.memory_set.areas@[j].vpn_range.has(v)]
        0 <= j < tcb.memory_set.areas@.len() && tcb.memory_set.areas@[j].vpn_range.start.0
            != tcb.heap_bottom / PAGE_SIZE ==> !(tcb.memory_set.areas@[j].vpn_range.has(v)
            && tcb.heap_bottom / PAGE_SIZE <= v < crate::config::TRAP_CONTEXT_VPN)
    &&& !(tcb.heap_bottom / PAGE_SIZE <= crate::config::TRAMPOLINE_VPN
        < crate::config::TRAP_CONTEXT_VPN)
    &&& forall|j: int|
        0 <= j < tcb.memory_set.areas@.len() && (#[trigger] tcb.memory_set.areas@[j]).vpn_range.start.0
            == tcb.heap_bottom / PAGE_SIZE ==> tcb.memory_set.areas@[j].vpn_range.end == page_span(
            VirtAddr(tcb.heap_bottom),
            VirtAddr(tcb.program_brk),
        ).end
}

impl TaskControlBlock {
    /// The block's pieces are well formed and the break sits at or above the
    /// bottom of its region.
    pub open spec fn wf(self) -> bool {
        &&& self.memory_set.wf()
        &&& self.task_info.syscall_times.wf()
        &&& self.heap_bottom <= self.program_brk
    }

    /// The task's table token.
    pub fn get_user_token(&self) -> (r: u64)
        ensures
            r == (8u64 << 60) | self.memory_set.page_table.root_ppn,
    {
        self.memory_set.token()
    }

    /// The saved trap state.
    pub fn get_trap_cx(&self) -> (r: TrapContext)
        ensures
            r == self.trap_cx,
    {
        self.trap_cx
    }

    /// Overwrite the saved trap state.
    pub fn set_trap_cx(&mut self, cx: TrapContext)
        ensures
            final(self).trap_cx == cx,
            final(self).task_status == old(self).task_status,
            final(self).task_cx == old(self).task_cx,
            final(self).task_info == old(self).task_info,
            final(self).memory_set == old(self).memory_set,
            final(self).heap_bottom == old(self).heap_bottom,
            final(self).program_brk == old(self).program_brk,
    {
        self.trap_cx = cx;
    }

    /// Grow or shrink the break-adjustable region by the signed `size`,
    /// returning the previous break on success and nothing when the new
    /// break would fall below the region's bottom or the space refuses.
    pub fn change_program_brk(&mut self, fa: &mut FrameAllocator, size: i64) -> (r: Option<u64>)
        requires
            old(self).wf(),
            old(fa).wf(),
            old(self).memory_set.frames_ok(*old(fa)),
            brk_preconditions(*old(self), size),
        ensures
            final(self).wf(),
            final(fa).wf(),
            final(self).memory_set.frames_ok(*final(fa)),
            final(self).heap_bottom == old(self).heap_bottom,
            r.is_some() <==> (old(self).heap_bottom as i64 <= old(self).program_brk as i64 + size
                <= TRAP_CONTEXT_BASE as i64),
            r.is_some() ==> r == Some(old(self).program_brk) && final(self).program_brk == (old(
                self,
            ).program_brk as i64 + size) as u64 && brk_preconditions(*final(self), 0) && (exists|
                j: int,
            |
                0 <= j < old(self).memory_set.areas@.len() && (
                #[trigger] final(self).memory_set.areas@[j]).vpn_range == (
                crate::addr::VPNRange {
                    start: old(self).memory_set.areas@[j].vpn_range.start,
                    end: page_span(
                        VirtAddr(old(self).heap_bottom),
                        VirtAddr(((old(self).program_brk as i64 + size) as u64)),
                    ).end,
                }) && final(self).memory_set.areas@ == old(self).memory_set.areas@.update(
                    j,
                    final(self).memory_set.areas@[j],
                )),
            r.is_none() ==> *final(self) == *old(self) && *final(fa) == *old(fa),
    {
        let old_brk = self.program_brk;
        let new_brk_signed: i64 = (old_brk as i64) + size;
        if new_brk_signed < (self.heap_bottom as i64) {
            return None;
        }
        if new_brk_signed > (TRAP_CONTEXT_BASE as i64) {
            return None;
        }
        let new_brk = new_brk_signed as u64;
        let result = if size < 0 {
            self.memory_set.shrink_to(fa, VirtAddr(self.heap_bottom), VirtAddr(new_brk))
        } else {
            self.memory_set.append_to(fa, VirtAddr(self.heap_bottom), VirtAddr(new_brk))
        };
        match result {
            Ok(()) => {
                self.program_brk = new_brk;
                proof {
                    let ms0 = old(self).memory_set;
                    let j = choose|j: int|
                        0 <= j < ms0.areas@.len() && (
                        #[trigger] self.memory_set.areas@[j]).vpn_range == (
                        crate::addr::VPNRange {
                            start: ms0.areas@[j].vpn_range.start,
                            end: page_span(VirtAddr(self.heap_bottom), VirtAddr(new_brk)).end,
                        }) && self.memory_set.areas@ == ms0.areas@.update(
                            j,
                            self.memory_set.areas@[j],
                        ) && self.memory_set.areas@[j].map_type == ms0.areas@[j].map_type
                            && self.memory_set.areas@[j].map_permission
                            == ms0.areas@[j].map_permission
                            && self.memory_set.areas@[j].vpn_range.start.0 == self.heap_bottom
                            / PAGE_SIZE;
                    assert(ms0.areas@[j].vpn_range.start.0 == self.heap_bottom / PAGE_SIZE);
                    assert(self.memory_set.areas@[j].map_type
                        == crate::memory_area::MapType::Framed);
                    assert forall|j2: int|
                        0 <= j2 < self.memory_set.areas@.len() && (
                        #[trigger] self.memory_set.areas@[j2]).vpn_range.start.0
                            == self.heap_bottom / PAGE_SIZE implies self.memory_set.areas@[j2].map_type
                        == crate::memory_area::MapType::Framed
                        && self.memory_set.areas@[j2].vpn_range.end == page_span(
                        VirtAddr(self.heap_bottom),
                        VirtAddr(self.program_brk),
                    ).end by {
                        if j2 != j {
                            assert(self.memory_set.areas@[j2] == ms0.areas@[j2]);
                            assert(ms0.areas@[j2].vpn_range.start.0 == self.heap_bottom
                                / PAGE_SIZE);
                            assert(false);
                        }
                    };
                    assert forall|j1: int, j2: int|
                        0 <= j1 < j2 < self.memory_set.areas@.len() implies !((
                    #[trigger] self.memory_set.areas@[j1]).vpn_range.start.0 == self.heap_bottom
                        / PAGE_SIZE && (#[trigger] self.memory_set.areas@[j2]).vpn_range.start.0
                        == self.heap_bottom / PAGE_SIZE) by {
                        if self.memory_set.areas@[j1].vpn_range.start.0 == self.heap_bottom
                            / PAGE_SIZE && self.memory_set.areas@[j2].vpn_range.start.0
                            == self.heap_bottom / PAGE_SIZE {
                            if j1 != j {
                                assert(self.memory_set.areas@[j1] == ms0.areas@[j1]);
                            }
                            if j2 != j {
                                assert(self.memory_set.areas@[j2] == ms0.areas@[j2]);
                            }
                        }
                    };
                    assert forall|j2: int, v: u64|
                        #![trigger self.memory_set.areas@[j2].vpn_range.has(v)]
                        0 <= j2 < self.memory_set.areas@.len()
                            && self.memory_set.areas@[j2].vpn_range.start.0 != self.heap_bottom
                            / PAGE_SIZE implies !(self.memory_set.areas@[j2].vpn_range.has(v)
                        && self.heap_bottom / PAGE_SIZE <= v
                            < crate::config::TRAP_CONTEXT_VPN) by {
                        if j2 != j {
                            assert(self.memory_set.areas@[j2] == ms0.areas@[j2]);
                            if self.memory_set.areas@[j2].vpn_range.has(v) {
                                assert(ms0.areas@[j2].vpn_range.has(v));
                            }
                        }
                    };
                }
                Some(old_brk)
            },
            Err(_) => {
                proof {
                    assert(false);
                }
                None
            },
        }
    }
}

} // verus!
