//! The cooperative round-robin scheduler: the full task list, the index of
//! the current task, and the state transitions of the task lifecycle.
//!
//! Selection scans forward from the slot after the current task, wrapping
//! around, and takes the first `Ready` task.  When none is `Ready` the kernel
//! has no work left; the caller treats that as total completion and halts.
//! The low-level register swap that realizes a switch is target assembly and
//! stays outside: the scheduler returns which tasks to switch between.

use vstd::prelude::*;
use vstd::arithmetic::div_mod::{lemma_mod_multiples_vanish, lemma_small_mod};
use crate::addr::VirtAddr;
use crate::error::MMResult;
use crate::frame_alloc::FrameAllocator;
use crate::memory_area::MapPermission;
use crate::page_table::{PTE_R, PTE_W, PTE_X};
use crate::task::{TaskControlBlock, TaskStatus};

verus! {

/// The slot the round-robin scan visits at distance `d` from the current
/// task: the next slot is distance zero.
pub open spec fn scan_slot(current: int, n: int, d: int) -> int
    recommends
        n > 0,
{
    (current + 1 + d) % n
}

/// The task manager: every task, and which one runs now.
pub struct TaskManager {
    /// All task control blocks.
    pub tasks: Vec<TaskControlBlock>,
    /// Index of the current task.
    pub current_task: usize,
}

impl TaskManager {
    /// Task `i` exists and is ready to run.
    pub open spec fn ready(self, i: int) -> bool {
        0 <= i < self.tasks@.len() && self.tasks@[i].task_status == TaskStatus::Ready
    }

    /// The manager holds at least one task and a valid current index.
    pub open spec fn wf(self) -> bool {
        &&& 1 <= self.tasks@.len() < 0x1000_0000
        &&& self.current_task < self.tasks@.len()
    }

    /// A manager over the given tasks, starting at the first slot.
    pub fn new(tasks: Vec<TaskControlBlock>) -> (r: TaskManager)
        requires
            1 <= tasks@.len() < 0x1000_0000,
        ensures
            r.wf(),
            r.tasks@ == tasks@,
            r.current_task == 0,
    {
        TaskManager { tasks, current_task: 0 }
    }

    /// Find the next task to run: scanning forward from the slot after the
    /// current task (wrapping around), the first `Ready` task wins.  Nothing
    /// is returned exactly when no task at all is `Ready`.
    pub fn find_next_task(&self) -> (r: Option<usize>)
        requires
            self.wf(),
        ensures
            r.is_none() <==> forall|i: int|
                0 <= i < self.tasks@.len() ==> !self.ready(i),
            match r {
                Some(j) => {
                    &&& j < self.tasks@.len()
                    &&& self.ready(j as int)
                    &&& exists|d: int|
                        0 <= d < self.tasks@.len() && j == scan_slot(
                            self.current_task as int,
                            self.tasks@.len() as int,
                            d,
                        ) && (forall|e: int|
                            0 <= e < d ==> !self.ready(
                                scan_slot(
                                    self.current_task as int,
                                    self.tasks@.len() as int,
                                    e,
                                ),
                            ))
                },
                None => true,
            },
    {
        let n = self.tasks.len();
        let current = self.current_task;
        let mut d: usize = 0;
        while d < n
            invariant
                self.wf(),
                n == self.tasks@.len(),
                current == self.current_task,
                d <= n,
                forall|e: int|
                    0 <= e < d ==> !self.ready(scan_slot(current as int, n as int, e)),
            decreases n - d,
        {
            let id = (current + 1 + d) % n;
            if self.tasks[id].task_status == TaskStatus::Ready {
                proof {
                    assert(id == scan_slot(current as int, n as int, d as int));
                    assert(self.ready(id as int));
                }
                return Some(id);
            }
            d = d + 1;
        }
        proof {
            assert forall|i: int| 0 <= i < self.tasks@.len() implies !self.ready(i) by {
                let n_ = n as int;
                let c = current as int;
                let e = if i >= c + 1 {
                    i - c - 1
                } else {
                    i + n_ - c - 1
                };
                assert(0 <= e < n_);
                if i >= c + 1 {
                    lemma_small_mod(i as nat, n_ as nat);
                    assert(scan_slot(c, n_, e) == i);
                } else {
                    lemma_mod_multiples_vanish(1, i, n_);
                    lemma_small_mod(i as nat, n_ as nat);
                    assert((c + 1 + e) == i + n_);
                    assert(scan_slot(c, n_, e) == (i + n_) % n_);
                    assert((i + n_) % n_ == i);
                }
                assert(!self.ready(scan_slot(c, n_, e)));
            };
        }
        None
    }

    /// Mark the current task `Ready` (it yields the core).
    pub fn mark_current_suspended(&mut self)
        requires
            old(self).wf(),
        ensures
            final(self).wf(),
            final(self).current_task == old(self).current_task,
            final(self).tasks@.len() == old(self).tasks@.len(),
            final(self).tasks@[old(self).current_task as int].task_status == TaskStatus::Ready,
            forall|i: int|
                0 <= i < old(self).tasks@.len() && i != old(self).current_task ==> final(self).tasks@[i] == old(self).tasks@[i],
    {
        let cur = self.current_task;
        self.tasks[cur].task_status = TaskStatus::Ready;
    }

    /// Mark the current task `Exited` (terminal).
    pub fn mark_current_exited(&mut self)
        requires
            old(self).wf(),
        ensures
            final(self).wf(),
            final(self).current_task == old(self).current_task,
            final(self).tasks@.len() == old(self).tasks@.len(),
            final(self).tasks@[old(self).current_task as int].task_status == TaskStatus::Exited,
            forall|i: int|
                0 <= i < old(self).tasks@.len() && i != old(self).current_task ==> final(self).tasks@[i] == old(self).tasks@[i],
    {
        let cur = self.current_task;
        self.tasks[cur].task_status = TaskStatus::Exited;
    }

    /// Dispatch the first task: mark it `Running` and stamp its dispatch
    /// time.  The caller then performs the low-level switch into it.
    pub fn run_first_task(&mut self, now: u64)
        requires
            old(self).wf(),
        ensures
            final(self).wf(),
            final(self).current_task == old(self).current_task,
            final(self).tasks@.len() == old(self).tasks@.len(),
            final(self).tasks@[0].task_status == TaskStatus::Running,
            final(self).tasks@[0].task_info.is_dispatched,
            forall|i: int|
                1 <= i < old(self).tasks@.len() ==> final(self).tasks@[i] == old(self).tasks@[i],
    {
        self.tasks[0].task_status = TaskStatus::Running;
        let mut info = &mut self.tasks[0].task_info;
        info.dispatch(now);
    }

    /// Pick the next `Ready` task, mark it `Running`, move the current index
    /// to it and stamp its dispatch time; the result names the outgoing and
    /// incoming slots for the low-level switch.  Nothing is returned exactly
    /// when no task is `Ready`: all work is done and the caller halts.
    pub fn run_next_task(&mut self, now: u64) -> (r: Option<(usize, usize)>)
        requires
            old(self).wf(),
        ensures
            final(self).wf(),
            final(self).tasks@.len() == old(self).tasks@.len(),
            r.is_none() <==> forall|i: int|
                0 <= i < old(self).tasks@.len() ==> !old(self).ready(i),
            r.is_none() ==> *final(self) == *old(self),
            match r {
                Some(p) => {
                    &&& p.0 == old(self).current_task
                    &&& p.1 < old(self).tasks@.len()
                    &&& old(self).ready(p.1 as int)
                    &&& final(self).current_task == p.1
                    &&& final(self).tasks@[p.1 as int].task_status == TaskStatus::Running
                    &&& final(self).tasks@[p.1 as int].task_info.is_dispatched
                    &&& forall|i: int|
                        0 <= i < old(self).tasks@.len() && i != p.1 ==> final(self).tasks@[i]
                            == old(self).tasks@[i]
                    &&& exists|d: int|
                        0 <= d < old(self).tasks@.len() && p.1 == scan_slot(
                            old(self).current_task as int,
                            old(self).tasks@.len() as int,
                            d,
                        ) && (forall|e: int|
                            0 <= e < d ==> !old(self).ready(
                                scan_slot(
                                    old(self).current_task as int,
                                    old(self).tasks@.len() as int,
                                    e,
                                ),
                            ))
                },
                None => true,
            },
    {
        match self.find_next_task() {
            Some(next) => {
                let current = self.current_task;
                self.tasks[next].task_status = TaskStatus::Running;
                self.current_task = next;
                let mut info = &mut self.tasks[next].task_info;
                info.dispatch(now);
                Some((current, next))
            },
            None => None,
        }
    }

    /// The current task's table token.
    pub fn get_current_token(&self) -> (r: u64)
        requires
            self.wf(),
        ensures
            r == (8u64 << 60)
                | self.tasks@[self.current_task as int].memory_set.page_table.root_ppn,
    {
        let cur = self.current_task;
        self.tasks[cur].get_user_token()
    }

    /// The current task's status.
    pub fn get_task_status(&self) -> (r: TaskStatus)
        requires
            self.wf(),
        ensures
            r == self.tasks@[self.current_task as int].task_status,
    {
        let cur = self.current_task;
        self.tasks[cur].task_status
    }

    /// The current task's first-dispatch time.
    pub fn get_start_time(&self) -> (r: u64)
        requires
            self.wf(),
        ensures
            r == self.tasks@[self.current_task as int].task_info.start_time,
    {
        let cur = self.current_task;
        self.tasks[cur].task_info.start_time
    }

    /// Count one invocation of syscall `id` against the current task.
    pub fn syscall_counter(&mut self, id: u64)
        requires
            old(self).wf(),
            old(self).tasks@[old(self).current_task as int].task_info.syscall_times.wf(),
        ensures
            final(self).wf(),
            final(self).current_task == old(self).current_task,
            final(self).tasks@.len() == old(self).tasks@.len(),
            final(self).tasks@[old(self).current_task as int].task_info.syscall_times.wf(),
            final(self).tasks@[old(self).current_task as int].task_info.syscall_times@ == old(self).tasks@[old(self).current_task as int].task_info.syscall_times@.insert(
                id,
                if old(self).tasks@[old(self).current_task as int].task_info.syscall_times@.contains_key(id) {
                    if old(self).tasks@[old(self).current_task as int].task_info.syscall_times@[id] == u32::MAX {
                        u32::MAX
                    } else {
                        (old(self).tasks@[old(self).current_task as int].task_info.syscall_times@[id] + 1) as u32
                    }
                } else {
                    1u32
                },
            ),
            forall|i: int|
                0 <= i < old(self).tasks@.len() && i != old(self).current_task ==> final(self).tasks@[i] == old(self).tasks@[i],
    {
        let cur = self.current_task;
        let mut info = &mut self.tasks[cur].task_info;
        info.syscall_counter(id);
    }

    /// Copy the current task's syscall counts into a table indexed by
    /// syscall identifier; identifiers outside the table are skipped.
    pub fn set_syscall_times(&self, out: &mut Vec<u32>)
        requires
            self.wf(),
            self.tasks@[self.current_task as int].task_info.syscall_times.wf(),
        ensures
            final(out)@.len() == old(out)@.len(),
            forall|id: int|
                0 <= id < final(out)@.len() && self.tasks@[self.current_task as int].task_info.syscall_times@.contains_key(
                    id as u64,
                ) ==> final(out)@[id] == self.tasks@[self.current_task as int].task_info.syscall_times@[id as u64],
            forall|id: int|
                0 <= id < final(out)@.len() && !self.tasks@[self.current_task as int].task_info.syscall_times@.contains_key(
                    id as u64,
                ) ==> final(out)@[id] == old(out)@[id],
    {
        let cur = self.current_task;
        let total = self.tasks[cur].task_info.syscall_times.len();
        let out_len = out.len();
        let mut k: usize = 0;
        while k < total
            invariant
                self.wf(),
                self.tasks@[self.current_task as int].task_info.syscall_times.wf(),
                cur == self.current_task,
                total == self.tasks@[cur as int].task_info.syscall_times.spec_len(),
                k <= total,
                out@.len() == out_len,
                forall|t: int|
                    0 <= t < k ==> {
                        let pair = (#[trigger] self.tasks@[cur as int].task_info.syscall_times.pairs@[t]);
                        pair.0 < out_len ==> out@[pair.0 as int] == pair.1
                    },
                forall|id: int|
                    0 <= id < out@.len() && !(exists|t: int|
                        0 <= t < k && (
                        #[trigger] self.tasks@[cur as int].task_info.syscall_times.pairs@[t]).0
                            == id as u64) ==> out@[id] == old(out)@[id],
            decreases total - k,
        {
            let pair = self.tasks[cur].task_info.syscall_times.pair_at(k);
            if pair.0 < out_len as u64 {
                let idx = pair.0 as usize;
                out.set(idx, pair.1);
            }
            k = k + 1;
        }
        proof {
            assert forall|id: int|
                0 <= id < out@.len()
                    && !self.tasks@[self.current_task as int].task_info.syscall_times@.contains_key(
                    id as u64,
                ) implies out@[id] == old(out)@[id] by {
                crate::keymap::lemma_map_of_contains(
                    self.tasks@[cur as int].task_info.syscall_times.pairs@,
                    id as u64,
                );
                if exists|t: int|
                    0 <= t < k && (
                    #[trigger] self.tasks@[cur as int].task_info.syscall_times.pairs@[t]).0
                        == id as u64 {
                    let t = choose|t: int|
                        0 <= t < k && (
                        #[trigger] self.tasks@[cur as int].task_info.syscall_times.pairs@[t]).0
                            == id as u64;
                }
            };
            assert forall|id: int|
                0 <= id < out@.len()
                    && self.tasks@[self.current_task as int].task_info.syscall_times@.contains_key(
                    id as u64,
                ) implies out@[id] == self.tasks@[self.current_task as int].task_info.syscall_times@[id as u64] by {
                crate::keymap::lemma_map_of_contains(
                    self.tasks@[cur as int].task_info.syscall_times.pairs@,
                    id as u64,
                );
                let t = choose|t: int|
                    0 <= t < self.tasks@[cur as int].task_info.syscall_times.pairs@.len() && (
                    #[trigger] self.tasks@[cur as int].task_info.syscall_times.pairs@[t]).0
                        == id as u64;
                crate::keymap::lemma_map_of_index(
                    self.tasks@[cur as int].task_info.syscall_times.pairs@,
                    t,
                );
            };
        }
    }

    /// Serve a memory-map request for the current task: zero on success, a
    /// negative generic code on any failure.
    pub fn map_memory(
        &mut self,
        fa: &mut FrameAllocator,
        start_va: VirtAddr,
        end_va: VirtAddr,
        permission: MapPermission,
    ) -> (r: i64)
        requires
            old(self).wf(),
            old(fa).wf(),
            old(self).tasks@[old(self).current_task as int].memory_set.wf(),
            old(self).tasks@[old(self).current_task as int].memory_set.frames_ok(*old(fa)),
            start_va.0 <= end_va.0,
            end_va.wf(),
            permission.wf(),
        ensures
            final(self).wf(),
            final(fa).wf(),
            final(self).current_task == old(self).current_task,
            final(self).tasks@[old(self).current_task as int].memory_set.wf(),
            final(self).tasks@[old(self).current_task as int].memory_set.frames_ok(*final(fa)),
            r == 0 || r == -1,
            (r == 0) <==> (!crate::memory_set::span_critical(start_va, end_va)
                && !crate::memory_set::span_overlaps(
                old(self).tasks@[old(self).current_task as int].memory_set,
                start_va,
                end_va,
            )),
            r == -1 ==> final(self).tasks@ == old(self).tasks@ && *final(fa) == *old(fa),
            r == 0 ==> {
                let ms0 = old(self).tasks@[old(self).current_task as int].memory_set;
                let ms1 = final(self).tasks@[old(self).current_task as int].memory_set;
                &&& ms1.areas@.len() == ms0.areas@.len() + 1
                &&& (forall|i: int| 0 <= i < ms0.areas@.len() ==> ms1.areas@[i] == ms0.areas@[i])
                &&& ms1.areas@.last().vpn_range == crate::memory_set::page_span(start_va, end_va)
                &&& ms1.areas@.last().map_type == crate::memory_area::MapType::Framed
                &&& ms1.areas@.last().map_permission == permission
                &&& ms1.areas@.last().frames() == Map::<u64, u64>::empty()
                &&& *final(fa) == *old(fa)
            },
            forall|i: int|
                0 <= i < old(self).tasks@.len() && i != old(self).current_task ==> final(self).tasks@[i] == old(self).tasks@[i],
    {
        let cur = self.current_task;
        let result = self.tasks[cur].memory_set.map_memory(fa, start_va, end_va, permission);
        if result.is_ok() {
            0
        } else {
            proof {
                assert(self.tasks@ =~= old(self).tasks@);
            }
            -1
        }
    }

    /// Serve a memory-unmap request for the current task: zero on success, a
    /// negative generic code on any failure.
    pub fn unmap_memory(&mut self, fa: &mut FrameAllocator, start_va: VirtAddr, end_va: VirtAddr)
        -> (r: i64)
        requires
            old(self).wf(),
            old(fa).wf(),
            old(self).tasks@[old(self).current_task as int].memory_set.wf(),
            old(self).tasks@[old(self).current_task as int].memory_set.frames_ok(*old(fa)),
            start_va.0 <= end_va.0,
            end_va.wf(),
        ensures
            final(self).wf(),
            final(fa).wf(),
            final(self).current_task == old(self).current_task,
            final(self).tasks@[old(self).current_task as int].memory_set.wf(),
            final(self).tasks@[old(self).current_task as int].memory_set.frames_ok(*final(fa)),
            r == 0 || r == -1,
            (r == 0) <==> (!crate::memory_set::span_critical(start_va, end_va) && old(self).tasks@[old(self).current_task as int].memory_set.covers_range(
                crate::memory_set::page_span(start_va, end_va),
            )),
            r == -1 ==> final(self).tasks@ == old(self).tasks@ && *final(fa) == *old(fa),
            r == 0 ==> {
                let ms1 = final(self).tasks@[old(self).current_task as int].memory_set;
                &&& (forall|v: u64|
                    crate::memory_set::page_span(start_va, end_va).has(v)
                        ==> !ms1.page_table.mapping().contains_key(v))
                &&& (forall|i: int, v: u64|
                    0 <= i < ms1.areas@.len() && (#[trigger] ms1.areas@[i].vpn_range.has(v))
                        ==> !crate::memory_set::page_span(start_va, end_va).has(v))
            },
            forall|i: int|
                0 <= i < old(self).tasks@.len() && i != old(self).current_task ==> final(self).tasks@[i] == old(self).tasks@[i],
    {
        let cur = self.current_task;
        let result = self.tasks[cur].memory_set.unmap_memory(fa, start_va, end_va);
        if result.is_ok() {
            0
        } else {
            proof {
                assert(self.tasks@ =~= old(self).tasks@);
            }
            -1
        }
    }

    /// Check that the current task may read the page holding `va`, forcing
    /// it resident first.
    pub fn check_readable(&mut self, fa: &mut FrameAllocator, va: VirtAddr) -> (r: MMResult<()>)
        requires
            old(self).wf(),
            old(fa).wf(),
            old(self).tasks@[old(self).current_task as int].memory_set.wf(),
            old(self).tasks@[old(self).current_task as int].memory_set.frames_ok(*old(fa)),
        ensures
            final(self).wf(),
            final(fa).wf(),
            final(self).current_task == old(self).current_task,
            final(self).tasks@[old(self).current_task as int].memory_set.wf(),
            final(self).tasks@[old(self).current_task as int].memory_set.frames_ok(*final(fa)),
            r.is_ok() ==> {
                let ms = final(self).tasks@[old(self).current_task as int].memory_set;
                &&& ms.page_table.mapping().contains_key(va.0 / crate::config::PAGE_SIZE)
                &&& ms.page_table.mapping()[va.0 / crate::config::PAGE_SIZE].flags & PTE_R != 0
            },
            !old(self).tasks@[old(self).current_task as int].memory_set.page_in_some_area(
                va.0 / crate::config::PAGE_SIZE,
            ) ==> r == Err::<(), crate::error::MMError>(
                crate::error::MMError::AreaError(crate::error::AreaError::NotInclude),
            ),
            (exists|i: int|
                0 <= i < old(self).tasks@[old(self).current_task as int].memory_set.areas@.len()
                    && (#[trigger] old(self).tasks@[old(self).current_task as int].memory_set.areas@[i]).vpn_range.has(
                    va.0 / crate::config::PAGE_SIZE,
                ) && old(self).tasks@[old(self).current_task as int].memory_set.areas@[i].map_permission.bits & PTE_R != 0)
                && old(fa).free_count() >= 3 ==> r.is_ok(),
            (exists|i: int|
                0 <= i < old(self).tasks@[old(self).current_task as int].memory_set.areas@.len()
                    && (#[trigger] old(self).tasks@[old(self).current_task as int].memory_set.areas@[i]).vpn_range.has(
                    va.0 / crate::config::PAGE_SIZE,
                ) && old(self).tasks@[old(self).current_task as int].memory_set.areas@[i].map_permission.bits & PTE_R == 0)
                && old(fa).free_count() >= 3 ==> r == Err::<(), crate::error::MMError>(
                crate::error::MMError::PageError(
                    crate::error::PageError::PermissionError(
                        crate::error::PagePermissionError::Unreadable,
                    ),
                ),
            ),
    {
        let ghost vpn = va.0 / crate::config::PAGE_SIZE;
        let ghost ms0 = old(self).tasks@[old(self).current_task as int].memory_set;
        let cur = self.current_task;
        let pte = match self.tasks[cur].memory_set.transform(fa, va.floor()) {
            Ok(pte) => pte,
            Err(e) => {
                return Err(e);
            },
        };
        proof {
            let ms1 = self.tasks@[cur as int].memory_set;
            if exists|i: int|
                0 <= i < ms0.areas@.len() && (#[trigger] ms0.areas@[i]).vpn_range.has(vpn) {
                let i = choose|i: int|
                    0 <= i < ms0.areas@.len() && (#[trigger] ms0.areas@[i]).vpn_range.has(vpn);
                assert(ms1.areas@[i].vpn_range == ms0.areas@[i].vpn_range);
                assert(ms1.areas@[i].map_permission == ms0.areas@[i].map_permission);
                ms1.lemma_cover_entry(vpn, i);
                let b = ms0.areas@[i].map_permission.bits;
                assert((b | 1) & 2 == b & 2) by (bit_vector);
                assert(pte.flags & PTE_R == b & PTE_R);
            }
        }
        if pte.readable() {
            Ok(())
        } else {
            Err(crate::error::MMError::PageError(
                crate::error::PageError::PermissionError(
                    crate::error::PagePermissionError::Unreadable,
                ),
            ))
        }
    }

    /// Check that the current task may write the page holding `va`: write
    /// access also demands read access, so there is no write-only page.
    pub fn check_writeable(&mut self, fa: &mut FrameAllocator, va: VirtAddr) -> (r: MMResult<()>)
        requires
            old(self).wf(),
            old(fa).wf(),
            old(self).tasks@[old(self).current_task as int].memory_set.wf(),
            old(self).tasks@[old(self).current_task as int].memory_set.frames_ok(*old(fa)),
        ensures
            final(self).wf(),
            final(fa).wf(),
            final(self).current_task == old(self).current_task,
            final(self).tasks@[old(self).current_task as int].memory_set.wf(),
            final(self).tasks@[old(self).current_task as int].memory_set.frames_ok(*final(fa)),
            r.is_ok() ==> {
                let ms = final(self).tasks@[old(self).current_task as int].memory_set;
                &&& ms.page_table.mapping().contains_key(va.0 / crate::config::PAGE_SIZE)
                &&& ms.page_table.mapping()[va.0 / crate::config::PAGE_SIZE].flags & PTE_R != 0
                &&& ms.page_table.mapping()[va.0 / crate::config::PAGE_SIZE].flags & PTE_W != 0
            },
            !old(self).tasks@[old(self).current_task as int].memory_set.page_in_some_area(
                va.0 / crate::config::PAGE_SIZE,
            ) ==> r == Err::<(), crate::error::MMError>(
                crate::error::MMError::AreaError(crate::error::AreaError::NotInclude),
            ),
            (exists|i: int|
                0 <= i < old(self).tasks@[old(self).current_task as int].memory_set.areas@.len()
                    && (#[trigger] old(self).tasks@[old(self).current_task as int].memory_set.areas@[i]).vpn_range.has(
                    va.0 / crate::config::PAGE_SIZE,
                ) && old(self).tasks@[old(self).current_task as int].memory_set.areas@[i].map_permission.bits & PTE_R != 0
                    && old(self).tasks@[old(self).current_task as int].memory_set.areas@[i].map_permission.bits & PTE_W != 0)
                && old(fa).free_count() >= 3 ==> r.is_ok(),
            (exists|i: int|
                0 <= i < old(self).tasks@[old(self).current_task as int].memory_set.areas@.len()
                    && (#[trigger] old(self).tasks@[old(self).current_task as int].memory_set.areas@[i]).vpn_range.has(
                    va.0 / crate::config::PAGE_SIZE,
                ) && (old(self).tasks@[old(self).current_task as int].memory_set.areas@[i].map_permission.bits & PTE_R == 0
                    || old(self).tasks@[old(self).current_task as int].memory_set.areas@[i].map_permission.bits & PTE_W == 0))
                && old(fa).free_count() >= 3 ==> r == Err::<(), crate::error::MMError>(
                crate::error::MMError::PageError(
                    crate::error::PageError::PermissionError(
                        crate::error::PagePermissionError::Unwritable,
                    ),
                ),
            ),
    {
        let ghost vpn = va.0 / crate::config::PAGE_SIZE;
        let ghost ms0 = old(self).tasks@[old(self).current_task as int].memory_set;
        let cur = self.current_task;
        let pte = match self.tasks[cur].memory_set.transform(fa, va.floor()) {
            Ok(pte) => pte,
            Err(e) => {
                return Err(e);
            },
        };
        proof {
            let ms1 = self.tasks@[cur as int].memory_set;
            if exists|i: int|
                0 <= i < ms0.areas@.len() && (#[trigger] ms0.areas@[i]).vpn_range.has(vpn) {
                let i = choose|i: int|
                    0 <= i < ms0.areas@.len() && (#[trigger] ms0.areas@[i]).vpn_range.has(vpn);
                assert(ms1.areas@[i].vpn_range == ms0.areas@[i].vpn_range);
                assert(ms1.areas@[i].map_permission == ms0.areas@[i].map_permission);
                ms1.lemma_cover_entry(vpn, i);
                let b = ms0.areas@[i].map_permission.bits;
                assert((b | 1) & 2 == b & 2) by (bit_vector);
                assert((b | 1) & 4 == b & 4) by (bit_vector);
                assert(pte.flags & PTE_R == b & PTE_R);
                assert(pte.flags & PTE_W == b & PTE_W);
            }
        }
        if pte.readable() && pte.writable() {
            Ok(())
        } else {
            Err(crate::error::MMError::PageError(
                crate::error::PageError::PermissionError(
                    crate::error::PagePermissionError::Unwritable,
                ),
            ))
        }
    }

    /// Check that the current task may execute the page holding `va`:
    /// execution also demands read access.
    pub fn check_executable(&mut self, fa: &mut FrameAllocator, va: VirtAddr) -> (r: MMResult<()>)
        requires
            old(self).wf(),
            old(fa).wf(),
            old(self).tasks@[old(self).current_task as int].memory_set.wf(),
            old(self).tasks@[old(self).current_task as int].memory_set.frames_ok(*old(fa)),
        ensures
            final(self).wf(),
            final(fa).wf(),
            final(self).current_task == old(self).current_task,
            final(self).tasks@[old(self).current_task as int].memory_set.wf(),
            final(self).tasks@[old(self).current_task as int].memory_set.frames_ok(*final(fa)),
            r.is_ok() ==> {
                let ms = final(self).tasks@[old(self).current_task as int].memory_set;
                &&& ms.page_table.mapping().contains_key(va.0 / crate::config::PAGE_SIZE)
                &&& ms.page_table.mapping()[va.0 / crate::config::PAGE_SIZE].flags & PTE_R != 0
                &&& ms.page_table.mapping()[va.0 / crate::config::PAGE_SIZE].flags & PTE_X != 0
            },
            !old(self).tasks@[old(self).current_task as int].memory_set.page_in_some_area(
                va.0 / crate::config::PAGE_SIZE,
            ) ==> r == Err::<(), crate::error::MMError>(
                crate::error::MMError::AreaError(crate::error::AreaError::NotInclude),
            ),
            (exists|i: int|
                0 <= i < old(self).tasks@[old(self).current_task as int].memory_set.areas@.len()
                    && (#[trigger] old(self).tasks@[old(self).current_task as int].memory_set.areas@[i]).vpn_range.has(
                    va.0 / crate::config::PAGE_SIZE,
                ) && old(self).tasks@[old(self).current_task as int].memory_set.areas@[i].map_permission.bits & PTE_R != 0
                    && old(self).tasks@[old(self).current_task as int].memory_set.areas@[i].map_permission.bits & PTE_X != 0)
                && old(fa).free_count() >= 3 ==> r.is_ok(),
            (exists|i: int|
                0 <= i < old(self).tasks@[old(self).current_task as int].memory_set.areas@.len()
                    && (#[trigger] old(self).tasks@[old(self).current_task as int].memory_set.areas@[i]).vpn_range.has(
                    va.0 / crate::config::PAGE_SIZE,
                ) && (old(self).tasks@[old(self).current_task as int].memory_set.areas@[i].map_permission.bits & PTE_R == 0
                    || old(self).tasks@[old(self).current_task as int].memory_set.areas@[i].map_permission.bits & PTE_X == 0))
                && old(fa).free_count() >= 3 ==> r == Err::<(), crate::error::MMError>(
                crate::error::MMError::PageError(
                    crate::error::PageError::PermissionError(
                        crate::error::PagePermissionError::Unexecutable,
                    ),
                ),
            ),
    {
        let ghost vpn = va.0 / crate::config::PAGE_SIZE;
        let ghost ms0 = old(self).tasks@[old(self).current_task as int].memory_set;
        let cur = self.current_task;
        let pte = match self.tasks[cur].memory_set.transform(fa, va.floor()) {
            Ok(pte) => pte,
            Err(e) => {
                return Err(e);
            },
        };
        proof {
            let ms1 = self.tasks@[cur as int].memory_set;
            if exists|i: int|
                0 <= i < ms0.areas@.len() && (#[trigger] ms0.areas@[i]).vpn_range.has(vpn) {
                let i = choose|i: int|
                    0 <= i < ms0.areas@.len() && (#[trigger] ms0.areas@[i]).vpn_range.has(vpn);
                assert(ms1.areas@[i].vpn_range == ms0.areas@[i].vpn_range);
                assert(ms1.areas@[i].map_permission == ms0.areas@[i].map_permission);
                ms1.lemma_cover_entry(vpn, i);
                let b = ms0.areas@[i].map_permission.bits;
                assert((b | 1) & 2 == b & 2) by (bit_vector);
                assert((b | 1) & 8 == b & 8) by (bit_vector);
                assert(pte.flags & PTE_R == b & PTE_R);
                assert(pte.flags & PTE_X == b & PTE_X);
            }
        }
        if pte.readable() && pte.executable() {
            Ok(())
        } else {
            Err(crate::error::MMError::PageError(
                crate::error::PageError::PermissionError(
                    crate::error::PagePermissionError::Unexecutable,
                ),
            ))
        }
    }

    /// Change the current task's program break by the signed `size`,
    /// returning the previous break on success.
    pub fn change_current_program_brk(&mut self, fa: &mut FrameAllocator, size: i64) -> (r: Option<
        u64,
    >)
        requires
            old(self).wf(),
            old(fa).wf(),
            old(self).tasks@[old(self).current_task as int].wf(),
            old(self).tasks@[old(self).current_task as int].memory_set.frames_ok(*old(fa)),
            crate::task::brk_preconditions(
                old(self).tasks@[old(self).current_task as int],
                size,
            ),
        ensures
            final(self).wf(),
            final(fa).wf(),
            final(self).current_task == old(self).current_task,
            final(self).tasks@[old(self).current_task as int].wf(),
            final(self).tasks@[old(self).current_task as int].memory_set.frames_ok(*final(fa)),
            final(self).current_task == old(self).current_task,
            r.is_some() <==> (old(self).tasks@[old(self).current_task as int].heap_bottom as i64
                <= old(self).tasks@[old(self).current_task as int].program_brk as i64 + size
                <= crate::config::TRAP_CONTEXT_BASE as i64),
            r.is_some() ==> r == Some(old(self).tasks@[old(self).current_task as int].program_brk)
                && final(self).tasks@[old(self).current_task as int].program_brk == (old(
                self,
            ).tasks@[old(self).current_task as int].program_brk as i64 + size) as u64
                && crate::task::brk_preconditions(
                final(self).tasks@[old(self).current_task as int],
                0,
            ),
            r.is_none() ==> final(self).tasks@ == old(self).tasks@ && *final(fa) == *old(fa),
            forall|i: int|
                0 <= i < old(self).tasks@.len() && i != old(self).current_task ==> final(self).tasks@[i] == old(self).tasks@[i],
    {
        let cur = self.current_task;
        let mut task = &mut self.tasks[cur];
        let r = task.change_program_brk(fa, size);
        proof {
            if r.is_none() {
                assert(self.tasks@ =~= old(self).tasks@);
            }
        }
        r
    }
}

} // verus!
