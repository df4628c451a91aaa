//! Fixed layout constants of the kernel: page geometry, the two critical
//! virtual pages at the top of the address space, stack sizes, and the bound
//! on syscall identifiers tracked per task.
//!
//! The modeled machine is a 64-bit RISC-V core with an SV39 MMU, so raw
//! addresses and page numbers are `u64` throughout the library.

use vstd::prelude::*;

verus! {

/// Bytes in one page frame.
pub const PAGE_SIZE: u64 = 4096;

/// Bytes in one page frame, as a host index (equals `PAGE_SIZE`).
pub const PAGE_BYTES: usize = 4096;

/// log2 of `PAGE_SIZE`.
pub const PAGE_SIZE_BITS: u64 = 12;

/// One past the highest virtual address of the 39-bit (SV39) address space.
pub const VA_SIZE: u64 = 0x80_0000_0000;

/// Number of virtual pages in the 39-bit address space.
pub const VPN_COUNT: u64 = 0x800_0000;

/// End of the physical memory handed to the frame allocator.
pub const MEMORY_END: u64 = 0x8800_0000;

/// Virtual address of the trampoline page: the highest page of the space.
pub const TRAMPOLINE: u64 = VA_SIZE - PAGE_SIZE;

/// Virtual address of the trap-context page, directly below the trampoline.
pub const TRAP_CONTEXT_BASE: u64 = TRAMPOLINE - PAGE_SIZE;

/// Virtual page number of the trampoline page.
pub const TRAMPOLINE_VPN: u64 = TRAMPOLINE / PAGE_SIZE;

/// Virtual page number of the trap-context page.
pub const TRAP_CONTEXT_VPN: u64 = TRAP_CONTEXT_BASE / PAGE_SIZE;

/// Size of a user stack in bytes.
pub const USER_STACK_SIZE: u64 = 8192;

/// Size of a kernel stack in bytes.
pub const KERNEL_STACK_SIZE: u64 = 8192;

/// Syscall identifiers are tracked in `0..MAX_SYSCALL_NUM`.
pub const MAX_SYSCALL_NUM: usize = 500;

} // verus!
