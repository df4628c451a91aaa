//! Memory-management and task-scheduling core of a small SV39 paged kernel.
//!
//! The library models physical frames, a three-level page table, contiguous
//! mapped regions, per-task address spaces, and a cooperative round-robin
//! scheduler.  Hardware effects (the control-register write that activates an
//! address space, the low-level register swap between tasks, the clock) stay
//! outside; the library computes every decision and state change from plain
//! values and proves the contracts stated on each operation.

pub mod config;
pub mod addr;
pub mod error;
pub mod keymap;
pub mod frame_alloc;
pub mod page_table;
pub mod phys_mem;
pub mod memory_area;
pub mod memory_set;
pub mod elf;
pub mod task;
pub mod scheduler;
pub mod syscall;
pub mod processor;
pub mod laws;

use vstd::prelude::*;
use crate::error::MMResult;
use crate::frame_alloc::FrameAllocator;
use crate::memory_set::{KernelLayout, MemorySet};
use crate::phys_mem::PhysMemory;

verus! {

/// The boot-time kernel context: the physical frame pool, the modeled byte
/// contents of its frames, and the kernel's own identity-mapped space.
pub struct Kernel {
    /// The physical frame allocator.
    pub frame_allocator: FrameAllocator,
    /// The byte contents of the frame pool.
    pub phys_memory: PhysMemory,
    /// The kernel's own address space.
    pub kernel_space: MemorySet,
}

/// Initialize the memory subsystem: build the frame allocator over the pool
/// `[pool_base, pool_end)`, model the pool's bytes, and construct the
/// kernel's identity-mapped address space.  Failure here is fatal for a
/// kernel: the caller must abort on an error.
pub fn init(layout: KernelLayout, pool_base: u64, pool_end: u64, trampoline_ppn: u64) -> (r:
    MMResult<Kernel>)
    requires
        pool_base <= pool_end,
        pool_end - pool_base <= 0x10_0000,
        layout.wf(),
    ensures
        pool_end - pool_base >= 3 + 2 * (crate::memory_set::page_span(
            crate::addr::VirtAddr(layout.text_start),
            crate::addr::VirtAddr(layout.text_end),
        ).len_spec() + crate::memory_set::page_span(
            crate::addr::VirtAddr(layout.rodata_start),
            crate::addr::VirtAddr(layout.rodata_end),
        ).len_spec() + crate::memory_set::page_span(
            crate::addr::VirtAddr(layout.data_start),
            crate::addr::VirtAddr(layout.data_end),
        ).len_spec() + crate::memory_set::page_span(
            crate::addr::VirtAddr(layout.bss_start),
            crate::addr::VirtAddr(layout.bss_end),
        ).len_spec() + crate::memory_set::page_span(
            crate::addr::VirtAddr(layout.kernel_end),
            crate::addr::VirtAddr(crate::config::MEMORY_END),
        ).len_spec()) ==> r.is_ok(),
        match r {
            Ok(k) => {
                &&& k.frame_allocator.wf()
                &&& k.phys_memory.wf()
                &&& k.kernel_space.wf()
                &&& k.kernel_space.frames_ok(k.frame_allocator)
                &&& k.frame_allocator.base == pool_base
                &&& k.frame_allocator.end == pool_end
                &&& forall|p: u64|
                    pool_base <= p < pool_end ==> k.phys_memory.holds(p)
                &&& k.kernel_space.trampoline == Some(trampoline_ppn)
            },
            Err(_) => true,
        },
{
    let mut fa = FrameAllocator::new(pool_base, pool_end);
    let mem = PhysMemory::new(pool_base, (pool_end - pool_base) as usize);
    let ks = match MemorySet::new_kernel(&mut fa, layout, trampoline_ppn) {
        Ok(ks) => ks,
        Err(e) => {
            return Err(e);
        },
    };
    Ok(Kernel { frame_allocator: fa, phys_memory: mem, kernel_space: ks })
}

} // verus!
