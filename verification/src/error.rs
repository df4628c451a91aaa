//! The layered error taxonomy of the memory subsystem.
//!
//! Three tiers compose: permission errors sit inside page errors, and page
//! errors and area errors sit inside the top-level [`MMError`].  Fallible
//! operations return [`MMResult`], and failures propagate unmodified up to the
//! syscall boundary, which collapses them to a single generic failure code.

use vstd::prelude::*;

verus! {

/// Errors raised by the permission checks layered above raw translation.
#[derive(Clone, Copy, PartialEq, Eq, Structural, Debug)]
pub enum PagePermissionError {
    /// The page is not executable.
    Unexecutable,
    /// The page is not readable.
    Unreadable,
    /// The page is not writable.
    Unwritable,
    /// The page is not accessible from user mode.
    Unaccessible,
}

/// Errors raised by page-table walks.
#[derive(Clone, Copy, PartialEq, Eq, Structural, Debug)]
pub enum PageError {
    /// An intermediate directory of the walk is absent.
    DirPageInvalid,
    /// The leaf entry is already valid; mapping it again is refused.
    PageAlreadyAlloc,
    /// The leaf entry is not valid.
    PageInvalid,
    /// A permission check above the walk failed.
    PermissionError(PagePermissionError),
}

/// Errors raised by region bookkeeping inside an address space.
#[derive(Clone, Copy, PartialEq, Eq, Structural, Debug)]
pub enum AreaError {
    /// No region starts at the requested address.
    NotMatch,
    /// No region contains the requested page.
    NotInclude,
    /// The requested range overlaps a region that is already mapped.
    ContainMapped,
    /// The requested range is not fully covered by existing regions.
    ContainUnmapped,
    /// The requested range touches the trampoline or trap-context page.
    CriticalArea,
}

/// Top-level memory-management error.
#[derive(Clone, Copy, PartialEq, Eq, Structural, Debug)]
pub enum MMError {
    /// The frame allocator's pool is exhausted.
    MemoryNotEnough,
    /// A page-table walk failed.
    PageError(PageError),
    /// Region bookkeeping failed.
    AreaError(AreaError),
}

/// Result of a fallible memory-management operation.
pub type MMResult<R> = Result<R, MMError>;

impl PagePermissionError {
    /// Short description of the error.
    pub fn describe(&self) -> (r: &'static str)
    {
        match self {
            PagePermissionError::Unexecutable => "NotExecutable",
            PagePermissionError::Unreadable => "NotReadable",
            PagePermissionError::Unwritable => "NotWritable",
            PagePermissionError::Unaccessible => "NotUserAccessible",
        }
    }
}

impl PageError {
    /// Short description of the error.
    pub fn describe(&self) -> (r: &'static str)
    {
        match self {
            PageError::DirPageInvalid => "InvalidDirPage",
            PageError::PageAlreadyAlloc => "PageAlreadyValid",
            PageError::PageInvalid => "PageInvalid",
            PageError::PermissionError(e) => e.describe(),
        }
    }
}

impl AreaError {
    /// Short description of the error.
    pub fn describe(&self) -> (r: &'static str)
    {
        match self {
            AreaError::NotMatch => "NoMatchingArea",
            AreaError::NotInclude => "AreaRangeNotInclude",
            AreaError::ContainMapped => "AreaHasMappedPortion",
            AreaError::ContainUnmapped => "AreaHasUnmappedPortion",
            AreaError::CriticalArea => "AreaCritical",
        }
    }
}

impl MMError {
    /// Short description of the error.
    pub fn describe(&self) -> (r: &'static str)
    {
        match self {
            MMError::MemoryNotEnough => "NotEnoughMemory",
            MMError::PageError(pe) => pe.describe(),
            MMError::AreaError(ae) => ae.describe(),
        }
    }
}

} // verus!
