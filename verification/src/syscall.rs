//! The process-management syscall surface: exit, yield, the memory-map and
//! unmap requests, and break adjustment.
//!
//! Every fine-grained memory error collapses here to a single generic
//! negative status code; callers above this boundary see no further detail.
//! The clock readings the handlers need come in as arguments: reading the
//! clock is the boundary layer's business.

use vstd::prelude::*;
use crate::addr::VirtAddr;
use crate::config::{MAX_SYSCALL_NUM, PAGE_SIZE, VA_SIZE};
use crate::frame_alloc::FrameAllocator;
use crate::memory_area::{MapPermission, PERM_U};
use crate::scheduler::TaskManager;
use crate::task::TaskStatus;

verus! {

/// Total length of the first `i` byte windows.
pub open spec fn prefix_len(segs: Seq<Vec<u8>>, i: int) -> int
    decreases i,
{
    if i <= 0 {
        0
    } else {
        prefix_len(segs, i - 1) + segs[i - 1]@.len()
    }
}

/// Prefix lengths only grow with more windows.
proof fn lemma_prefix_len_mono(segs: Seq<Vec<u8>>, i: int, k: int)
    requires
        0 <= i <= k <= segs.len(),
    ensures
        prefix_len(segs, i) <= prefix_len(segs, k),
    decreases k - i,
{
    if i < k {
        lemma_prefix_len_mono(segs, i, k - 1);
    }
}

/// Copy `origin` into a run of byte windows, filling them in order; the
/// windows must hold exactly as many bytes as `origin` supplies.  This is
/// how a value crosses into user memory that a translated pointer names,
/// window by window across page boundaries.
pub fn copy(origin: &[u8], target: &mut Vec<Vec<u8>>)
    requires
        prefix_len(old(target)@, old(target)@.len() as int) == origin@.len(),
    ensures
        final(target)@.len() == old(target)@.len(),
        forall|i: int|
            0 <= i < old(target)@.len() ==> (#[trigger] final(target)@[i])@.len() == old(target)@[i]@.len(),
        forall|i: int, j: int|
            0 <= i < old(target)@.len() && 0 <= j < old(target)@[i]@.len() ==> (#[trigger] final(target)@[i]@[j]) == origin@[prefix_len(old(target)@, i) + j],
{
    let n = target.len();
    let mut index: usize = 0;
    let mut i: usize = 0;
    while i < n
        invariant
            n == target@.len(),
            n == old(target)@.len(),
            i <= n,
            prefix_len(old(target)@, old(target)@.len() as int) == origin@.len(),
            index == prefix_len(old(target)@, i as int),
            forall|t: int|
                0 <= t < n ==> (#[trigger] target@[t])@.len() == old(target)@[t]@.len(),
            forall|t: int, j: int|
                0 <= t < i && 0 <= j < old(target)@[t]@.len() ==> (#[trigger] target@[t]@[j])
                    == origin@[prefix_len(old(target)@, t) + j],
            forall|t: int| i <= t < n ==> (#[trigger] target@[t]) == old(target)@[t],
        decreases n - i,
    {
        let seg_len = target[i].len();
        let ghost seg_base = index as int;
        let mut j: usize = 0;
        proof {
            lemma_prefix_len_mono(old(target)@, i as int + 1, n as int);
        }
        while j < seg_len
            invariant
                n == target@.len(),
                n == old(target)@.len(),
                i < n,
                j <= seg_len,
                seg_len == old(target)@[i as int]@.len(),
                seg_base == prefix_len(old(target)@, i as int),
                seg_base + seg_len <= origin@.len(),
                index == seg_base + j,
                forall|t: int|
                    0 <= t < n ==> (#[trigger] target@[t])@.len() == old(target)@[t]@.len(),
                forall|t: int, jj: int|
                    0 <= t < i && 0 <= jj < old(target)@[t]@.len() ==> (
                    #[trigger] target@[t]@[jj]) == origin@[prefix_len(old(target)@, t) + jj],
                forall|jj: int|
                    0 <= jj < j ==> (#[trigger] target@[i as int]@[jj]) == origin@[seg_base + jj],
                forall|t: int| i < t < n ==> (#[trigger] target@[t]) == old(target)@[t],
            decreases seg_len - j,
        {
            let b = origin[index];
            target[i][j] = b;
            index = index + 1;
            j = j + 1;
        }
        i = i + 1;
    }
}

/// A second/microsecond split of a clock reading.
#[derive(Clone, Copy, PartialEq, Eq, Structural, Debug)]
pub struct TimeVal {
    /// Whole seconds.
    pub sec: u64,
    /// Remaining microseconds.
    pub usec: u64,
}

impl TimeVal {
    /// Split a microsecond reading.
    pub fn new(now_us: u64) -> (r: TimeVal)
        ensures
            r.sec == now_us / 1000000,
            r.usec == now_us % 1000000,
    {
        TimeVal { sec: now_us / 1000000, usec: now_us % 1000000 }
    }
}

/// The task-information report a task-info request returns: status, the
/// per-syscall invocation counts, and the time since first dispatch.
pub struct TaskInfo {
    /// The task's lifecycle status.
    pub status: TaskStatus,
    /// Invocation counts, indexed by syscall identifier.
    pub syscall_times: Vec<u32>,
    /// Time since the task's first dispatch.
    pub time: u64,
}

impl TaskInfo {
    /// An empty report: uninitialized status, all counts zero.
    pub fn new() -> (r: TaskInfo)
        ensures
            r.status == TaskStatus::UnInit,
            r.syscall_times@.len() == MAX_SYSCALL_NUM,
            r.time == 0,
    {
        let mut counts: Vec<u32> = Vec::new();
        let mut i: usize = 0;
        while i < MAX_SYSCALL_NUM
            invariant
                i <= MAX_SYSCALL_NUM,
                counts@.len() == i,
            decreases MAX_SYSCALL_NUM - i,
        {
            counts.push(0);
            i = i + 1;
        }
        TaskInfo { status: TaskStatus::UnInit, syscall_times: counts, time: 0 }
    }
}

/// Build the current task's report: its status, its syscall counts, and the
/// time elapsed since its first dispatch.
pub fn current_task_info(tm: &TaskManager, now: u64) -> (r: TaskInfo)
    requires
        tm.wf(),
        tm.tasks@[tm.current_task as int].task_info.syscall_times.wf(),
        now >= tm.tasks@[tm.current_task as int].task_info.start_time,
    ensures
        r.status == tm.tasks@[tm.current_task as int].task_status,
        r.time == now - tm.tasks@[tm.current_task as int].task_info.start_time,
        r.syscall_times@.len() == MAX_SYSCALL_NUM,
        forall|id: int|
            0 <= id < MAX_SYSCALL_NUM && tm.tasks@[tm.current_task as int].task_info.syscall_times@.contains_key(
                id as u64,
            ) ==> r.syscall_times@[id] == tm.tasks@[tm.current_task as int].task_info.syscall_times@[id as u64],
{
    let mut info = TaskInfo::new();
    info.status = tm.get_task_status();
    info.time = now - tm.get_start_time();
    tm.set_syscall_times(&mut info.syscall_times);
    info
}

/// The current task exits.  The result names the slots of the low-level
/// switch to the next task; nothing means every task has finished, which the
/// caller treats as total completion and halts.
pub fn sys_exit(tm: &mut TaskManager, now: u64) -> (r: Option<(usize, usize)>)
    requires
        old(tm).wf(),
    ensures
        final(tm).wf(),
        final(tm).tasks@.len() == old(tm).tasks@.len(),
        final(tm).tasks@[old(tm).current_task as int].task_status == TaskStatus::Exited,
        r.is_none() <==> (forall|i: int|
            0 <= i < old(tm).tasks@.len() ==> (i == old(tm).current_task || old(tm).tasks@[i].task_status != TaskStatus::Ready)),
        r.is_some() ==> r.unwrap().1 != old(tm).current_task && old(tm).tasks@[r.unwrap().1 as int].task_status == TaskStatus::Ready && final(tm).tasks@[r.unwrap().1 as int].task_status == TaskStatus::Running && final(tm).current_task == r.unwrap().1,
{
    tm.mark_current_exited();
    let ghost tm1 = *tm;
    let plan = tm.run_next_task(now);
    proof {
        if plan.is_some() {
            assert(tm1.ready(plan.unwrap().1 as int));
            assert(tm1.tasks@[old(tm).current_task as int].task_status == TaskStatus::Exited);
            assert(plan.unwrap().1 != old(tm).current_task);
            assert(old(tm).tasks@[plan.unwrap().1 as int].task_status == TaskStatus::Ready);
        } else {
            assert forall|i: int|
                0 <= i < old(tm).tasks@.len() implies (i == old(tm).current_task || old(
                tm,
            ).tasks@[i].task_status != TaskStatus::Ready) by {
                if i != old(tm).current_task && old(tm).tasks@[i].task_status
                    == TaskStatus::Ready {
                    assert(tm1.ready(i));
                }
            };
        }
        if forall|i: int|
            0 <= i < old(tm).tasks@.len() ==> (i == old(tm).current_task || old(
            tm,
        ).tasks@[i].task_status != TaskStatus::Ready) {
            assert forall|i: int| 0 <= i < tm1.tasks@.len() implies !tm1.ready(i) by {
                if tm1.ready(i) {
                    assert(i != old(tm).current_task);
                    assert(old(tm).tasks@[i].task_status == TaskStatus::Ready);
                }
            };
            assert(plan.is_none());
        }
    }
    plan
}

/// The current task yields the core.  Returns the syscall's status code
/// (always success) and the slots of the switch, if another task runs next.
pub fn sys_yield(tm: &mut TaskManager, now: u64) -> (r: (i64, Option<(usize, usize)>))
    requires
        old(tm).wf(),
    ensures
        final(tm).wf(),
        final(tm).tasks@.len() == old(tm).tasks@.len(),
        r.0 == 0,
        r.1.is_some(),
        r.1.unwrap().0 == old(tm).current_task,
        final(tm).tasks@[r.1.unwrap().1 as int].task_status == TaskStatus::Running,
        final(tm).current_task == r.1.unwrap().1,
        exists|d: int|
            0 <= d < old(tm).tasks@.len() && r.1.unwrap().1 == crate::scheduler::scan_slot(
                old(tm).current_task as int,
                old(tm).tasks@.len() as int,
                d,
            ) && (forall|e: int|
                0 <= e < d ==> !((#[trigger] crate::scheduler::scan_slot(
                    old(tm).current_task as int,
                    old(tm).tasks@.len() as int,
                    e,
                )) == old(tm).current_task || (0 <= crate::scheduler::scan_slot(
                    old(tm).current_task as int,
                    old(tm).tasks@.len() as int,
                    e,
                ) < old(tm).tasks@.len() && old(tm).tasks@[crate::scheduler::scan_slot(
                    old(tm).current_task as int,
                    old(tm).tasks@.len() as int,
                    e,
                )].task_status == TaskStatus::Ready))),
{
    tm.mark_current_suspended();
    let ghost tm1 = *tm;
    let plan = tm.run_next_task(now);
    proof {
        assert(tm1.ready(old(tm).current_task as int));
        assert(plan.is_some());
        assert forall|i: int|
            0 <= i < tm1.tasks@.len() implies tm1.ready(i) == (i == old(tm).current_task || (0
            <= i < old(tm).tasks@.len() && old(tm).tasks@[i].task_status
            == TaskStatus::Ready)) by {};
        let d = choose|d: int|
            0 <= d < tm1.tasks@.len() && plan.unwrap().1 == crate::scheduler::scan_slot(
                tm1.current_task as int,
                tm1.tasks@.len() as int,
                d,
            ) && (forall|e: int|
                0 <= e < d ==> !tm1.ready(
                    crate::scheduler::scan_slot(
                        tm1.current_task as int,
                        tm1.tasks@.len() as int,
                        e,
                    ),
                ));
        assert(tm1.current_task == old(tm).current_task);
        assert forall|e: int|
            0 <= e < d implies !((#[trigger] crate::scheduler::scan_slot(
            old(tm).current_task as int,
            old(tm).tasks@.len() as int,
            e,
        )) == old(tm).current_task || (0 <= crate::scheduler::scan_slot(
            old(tm).current_task as int,
            old(tm).tasks@.len() as int,
            e,
        ) < old(tm).tasks@.len() && old(tm).tasks@[crate::scheduler::scan_slot(
            old(tm).current_task as int,
            old(tm).tasks@.len() as int,
            e,
        )].task_status == TaskStatus::Ready)) by {
            assert(!tm1.ready(
                crate::scheduler::scan_slot(
                    tm1.current_task as int,
                    tm1.tasks@.len() as int,
                    e,
                ),
            ));
        };
    }
    match plan {
        Some(p) => (0, Some(p)),
        None => {
            proof {
                assert(false);
            }
            (0, None)
        },
    }
}

/// Serve a memory-map request: `start` must be page-aligned and the
/// permission bits a non-empty subset of read, write and execute; any other
/// input is refused with the generic failure code and no region is inserted.
pub fn sys_mmap(tm: &mut TaskManager, fa: &mut FrameAllocator, start: u64, len: u64, port: u64)
    -> (r: i64)
    requires
        old(tm).wf(),
        old(fa).wf(),
        old(tm).tasks@[old(tm).current_task as int].memory_set.wf(),
        old(tm).tasks@[old(tm).current_task as int].memory_set.frames_ok(*old(fa)),
        start + len < VA_SIZE,
    ensures
        final(tm).wf(),
        final(fa).wf(),
        final(tm).tasks@[old(tm).current_task as int].memory_set.wf(),
        final(tm).tasks@[old(tm).current_task as int].memory_set.frames_ok(*final(fa)),
        r == 0 || r == -1,
        start % PAGE_SIZE != 0 ==> r == -1 && *final(tm) == *old(tm) && *final(fa) == *old(fa),
        port & !0x7 != 0 || port & 0x7 == 0 ==> r == -1 && *final(tm) == *old(tm) && *final(fa)
            == *old(fa),
        start % PAGE_SIZE == 0 && port & !0x7 == 0 && port & 0x7 != 0 ==> {
            let ms0 = old(tm).tasks@[old(tm).current_task as int].memory_set;
            &&& ((r == 0) <==> (!crate::memory_set::span_critical(
                VirtAddr(start),
                VirtAddr((start + len) as u64),
            ) && !crate::memory_set::span_overlaps(
                ms0,
                VirtAddr(start),
                VirtAddr((start + len) as u64),
            )))
            &&& (r == -1 ==> final(tm).tasks@ == old(tm).tasks@ && *final(fa) == *old(fa))
            &&& (r == 0 ==> {
                let ms1 = final(tm).tasks@[old(tm).current_task as int].memory_set;
                &&& ms1.areas@.len() == ms0.areas@.len() + 1
                &&& (forall|i: int| 0 <= i < ms0.areas@.len() ==> ms1.areas@[i] == ms0.areas@[i])
                &&& ms1.areas@.last().vpn_range == crate::memory_set::page_span(
                    VirtAddr(start),
                    VirtAddr((start + len) as u64),
                )
                &&& ms1.areas@.last().map_type == crate::memory_area::MapType::Framed
                &&& ms1.areas@.last().frames() == Map::<u64, u64>::empty()
                &&& *final(fa) == *old(fa)
            })
        },
{
    if start % PAGE_SIZE != 0 {
        return -1;
    }
    if port & !0x7 != 0 || port & 0x7 == 0 {
        return -1;
    }
    proof {
        let q = port;
        assert(q & !0x7 == 0 ==> q <= 7) by (bit_vector);
    }
    let bits = ((port as u8) << 1u8) | PERM_U;
    proof {
        let p = port as u8;
        assert(p <= 7 ==> ((p << 1u8) | 16) & 0xe1 == 0) by (bit_vector);
    }
    let perm = match MapPermission::from_bits(bits) {
        Some(p) => p,
        None => {
            proof {
                assert(false);
            }
            MapPermission { bits: 0 }
        },
    };
    tm.map_memory(fa, VirtAddr(start), VirtAddr(start + len), perm)
}

/// Serve a memory-unmap request: `start` must be page-aligned; any other
/// input is refused with the generic failure code and nothing changes.
pub fn sys_munmap(tm: &mut TaskManager, fa: &mut FrameAllocator, start: u64, len: u64) -> (r: i64)
    requires
        old(tm).wf(),
        old(fa).wf(),
        old(tm).tasks@[old(tm).current_task as int].memory_set.wf(),
        old(tm).tasks@[old(tm).current_task as int].memory_set.frames_ok(*old(fa)),
        start + len < VA_SIZE,
    ensures
        final(tm).wf(),
        final(fa).wf(),
        final(tm).tasks@[old(tm).current_task as int].memory_set.wf(),
        final(tm).tasks@[old(tm).current_task as int].memory_set.frames_ok(*final(fa)),
        r == 0 || r == -1,
        start % PAGE_SIZE != 0 ==> r == -1 && *final(tm) == *old(tm) && *final(fa) == *old(fa),
        start % PAGE_SIZE == 0 ==> {
            let ms0 = old(tm).tasks@[old(tm).current_task as int].memory_set;
            &&& ((r == 0) <==> (!crate::memory_set::span_critical(
                VirtAddr(start),
                VirtAddr((start + len) as u64),
            ) && ms0.covers_range(
                crate::memory_set::page_span(VirtAddr(start), VirtAddr((start + len) as u64)),
            )))
            &&& (r == -1 ==> final(tm).tasks@ == old(tm).tasks@ && *final(fa) == *old(fa))
            &&& (r == 0 ==> {
                let ms1 = final(tm).tasks@[old(tm).current_task as int].memory_set;
                &&& (forall|v: u64|
                    crate::memory_set::page_span(
                        VirtAddr(start),
                        VirtAddr((start + len) as u64),
                    ).has(v) ==> !ms1.page_table.mapping().contains_key(v))
                &&& (forall|i: int, v: u64|
                    0 <= i < ms1.areas@.len() && (#[trigger] ms1.areas@[i].vpn_range.has(v))
                        ==> !crate::memory_set::page_span(
                        VirtAddr(start),
                        VirtAddr((start + len) as u64),
                    ).has(v))
            })
        },
{
    if start % PAGE_SIZE != 0 {
        return -1;
    }
    tm.unmap_memory(fa, VirtAddr(start), VirtAddr(start + len))
}

/// Adjust the current task's program break by the signed `size`, returning
/// the previous break on success and the generic failure code otherwise.
pub fn sys_sbrk(tm: &mut TaskManager, fa: &mut FrameAllocator, size: i64) -> (r: i64)
    requires
        old(tm).wf(),
        old(fa).wf(),
        old(tm).tasks@[old(tm).current_task as int].wf(),
        old(tm).tasks@[old(tm).current_task as int].memory_set.frames_ok(*old(fa)),
        crate::task::brk_preconditions(old(tm).tasks@[old(tm).current_task as int], size),
    ensures
        final(tm).wf(),
        final(fa).wf(),
        final(tm).tasks@[old(tm).current_task as int].wf(),
        final(tm).tasks@[old(tm).current_task as int].memory_set.frames_ok(*final(fa)),
        r == -1 || r == old(tm).tasks@[old(tm).current_task as int].program_brk,
        (r == old(tm).tasks@[old(tm).current_task as int].program_brk
            && final(tm).tasks@[old(tm).current_task as int].program_brk == (old(tm).tasks@[old(
            tm,
        ).current_task as int].program_brk as i64 + size) as u64) <==> (old(tm).tasks@[old(
            tm,
        ).current_task as int].heap_bottom as i64 <= old(tm).tasks@[old(
            tm,
        ).current_task as int].program_brk as i64 + size
            <= crate::config::TRAP_CONTEXT_BASE as i64),
        (r == -1) <==> !(old(tm).tasks@[old(tm).current_task as int].heap_bottom as i64 <= old(
            tm,
        ).tasks@[old(tm).current_task as int].program_brk as i64 + size
            <= crate::config::TRAP_CONTEXT_BASE as i64),
{
    match tm.change_current_program_brk(fa, size) {
        Some(old_brk) => {
            proof {
                assert(old_brk <= crate::config::TRAP_CONTEXT_BASE);
            }
            old_brk as i64
        },
        None => -1,
    }
}

} // verus!
