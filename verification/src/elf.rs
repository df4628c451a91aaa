//! A small reader for 64-bit little-endian executable images with a standard
//! segment table: the magic number, the entry point, and the `Load`-type
//! program headers are all the loader needs.

use vstd::prelude::*;
use crate::addr::VirtAddr;
use crate::config::{PAGE_BYTES, PAGE_SIZE, TRAP_CONTEXT_BASE, USER_STACK_SIZE};
use crate::memory_area::pages_of;
use crate::memory_set::page_span;

verus! {

/// Segment type tag of a loadable segment.
pub const PT_LOAD: u32 = 1;

/// Size in bytes of one program-header entry.
pub const PH_ENTRY_SIZE: u64 = 56;

/// Byte `b[off]..b[off+2]` as a little-endian number.
pub open spec fn le16(b: Seq<u8>, off: int) -> int {
    let n = b.len();
    (b[off] as u64) + (b[off + 1] as u64) * 0x100
}

/// Bytes `b[off]..b[off+4]` as a little-endian number.
pub open spec fn le32(b: Seq<u8>, off: int) -> int {
    le16(b, off) + le16(b, off + 2) * 0x10000
}

/// Bytes `b[off]..b[off+8]` as a little-endian number.
pub open spec fn le64(b: Seq<u8>, off: int) -> int {
    le32(b, off) + le32(b, off + 4) * 0x100000000
}

/// Read a 16-bit little-endian field.
pub fn read_le16(b: &[u8], off: usize) -> (r: u64)
    requires
        off + 2 <= b@.len(),
    ensures
        r == le16(b@, off as int),
        r <= 0xffff,
{
    let n = b.len();
    (b[off] as u64) + (b[off + 1] as u64) * 0x100
}

/// Read a 32-bit little-endian field.
pub fn read_le32(b: &[u8], off: usize) -> (r: u64)
    requires
        off + 4 <= b@.len(),
    ensures
        r == le32(b@, off as int),
        r <= 0xffffffff,
{
    let n = b.len();
    read_le16(b, off) + read_le16(b, off + 2) * 0x10000
}

/// Read a 64-bit little-endian field.
pub fn read_le64(b: &[u8], off: usize) -> (r: u64)
    requires
        off + 8 <= b@.len(),
    ensures
        r == le64(b@, off as int),
{
    let n = b.len();
    read_le32(b, off) + read_le32(b, off + 4) * 0x100000000
}

/// One program header of the image, decoded to plain fields.
#[derive(Clone, Copy, PartialEq, Eq, Structural, Debug)]
pub struct ProgramHeader {
    /// Segment type tag.
    pub ptype: u32,
    /// Read/write/execute flag bits of the segment.
    pub flags: u32,
    /// Byte offset of the segment's data in the image.
    pub offset: u64,
    /// Virtual address the segment loads at.
    pub vaddr: u64,
    /// Number of data bytes in the image.
    pub file_size: u64,
    /// Number of bytes the segment occupies in memory.
    pub mem_size: u64,
}

/// The decoded header fields of program header `i`.
pub open spec fn spec_ph(b: Seq<u8>, i: int) -> ProgramHeader {
    let base = le64(b, 32) + i * PH_ENTRY_SIZE;

    ProgramHeader {
        ptype: le32(b, base) as u32,
        flags: le32(b, base + 4) as u32,
        offset: le64(b, base + 8) as u64,
        vaddr: le64(b, base + 16) as u64,
        file_size: le64(b, base + 32) as u64,
        mem_size: le64(b, base + 40) as u64,
    }
}

/// Number of program headers of the image.
pub open spec fn spec_ph_count(b: Seq<u8>) -> int {
    le16(b, 56)
}

/// The entry point recorded in the image header.
pub open spec fn spec_entry(b: Seq<u8>) -> int {
    le64(b, 24)
}

/// The image is well formed for loading: the magic number matches, the header
/// table is in bounds, and every loadable segment has in-bounds data, loads
/// below the trap-context region with room for the guard page and user stack,
/// fits the pages its range spans, and comes after the previous one with at
/// least a page boundary between them.
pub open spec fn elf_wf(b: Seq<u8>) -> bool {
    &&& 64 <= b.len()
    &&& b.len() + PAGE_BYTES <= usize::MAX
    &&& b[0] == 0x7fu8 && b[1] == 0x45u8 && b[2] == 0x4cu8 && b[3] == 0x46u8
    &&& le16(b, 54) == PH_ENTRY_SIZE
    &&& le64(b, 32) + spec_ph_count(b) * PH_ENTRY_SIZE <= b.len()
    &&& forall|i: int|
        0 <= i < spec_ph_count(b) && (#[trigger] spec_ph(b, i)).ptype == PT_LOAD ==> {
            let ph = spec_ph(b, i);
            &&& 1 <= ph.file_size <= ph.mem_size
            &&& ph.offset + ph.file_size <= b.len()
            &&& ph.vaddr + ph.mem_size + 3 * PAGE_SIZE + USER_STACK_SIZE
                <= TRAP_CONTEXT_BASE
            &&& pages_of(ph.file_size as int) <= page_span(
                VirtAddr(ph.vaddr),
                VirtAddr((ph.vaddr + ph.mem_size) as u64),
            ).len_spec()
        }
    &&& forall|i: int, j: int|
        0 <= i < j < spec_ph_count(b) && (#[trigger] spec_ph(b, i)).ptype == PT_LOAD && (
        #[trigger] spec_ph(b, j)).ptype == PT_LOAD ==> page_span(
            VirtAddr(spec_ph(b, i).vaddr),
            VirtAddr((spec_ph(b, i).vaddr + spec_ph(b, i).mem_size) as u64),
        ).end.0 <= spec_ph(b, j).vaddr / PAGE_SIZE
}

/// The permission bits a segment's flags dictate: user-accessible plus
/// read/write/execute copied from the header.
pub open spec fn perm_of_flags(flags: u32) -> u8 {
    let with_read = if flags & 4 != 0 {
        16u8 | 2u8
    } else {
        16u8
    };
    let with_write = if flags & 2 != 0 {
        with_read | 4u8
    } else {
        with_read
    };
    if flags & 1 != 0 {
        with_write | 8u8
    } else {
        with_write
    }
}

/// The page range a loadable segment occupies.
pub open spec fn load_span(b: Seq<u8>, i: int) -> crate::addr::VPNRange {
    page_span(
        VirtAddr(spec_ph(b, i).vaddr),
        VirtAddr((spec_ph(b, i).vaddr + spec_ph(b, i).mem_size) as u64),
    )
}

/// How many of the first `i` program headers are loadable.
pub open spec fn loads_before(b: Seq<u8>, i: int) -> int
    decreases i,
{
    if i <= 0 {
        0
    } else {
        loads_before(b, i - 1) + (if spec_ph(b, i - 1).ptype == PT_LOAD {
            1int
        } else {
            0int
        })
    }
}

/// The frame budget the first `i` segments can consume when made resident:
/// one frame per page plus at most two directory frames per page.
pub open spec fn load_budget(b: Seq<u8>, i: int) -> int
    decreases i,
{
    if i <= 0 {
        0
    } else {
        load_budget(b, i - 1) + (if spec_ph(b, i - 1).ptype == PT_LOAD {
            3 * load_span(b, i - 1).len_spec()
        } else {
            0int
        })
    }
}

/// One past the last page of the highest loadable segment among the first
/// `i` headers (zero when none is loadable).
pub open spec fn last_load_end(b: Seq<u8>, i: int) -> int
    decreases i,
{
    if i <= 0 {
        0
    } else if spec_ph(b, i - 1).ptype == PT_LOAD {
        load_span(b, i - 1).end.0 as int
    } else {
        last_load_end(b, i - 1)
    }
}

/// A loadable segment of a well-formed image spans at least one page.
pub proof fn lemma_load_span_wf(b: Seq<u8>, i: int)
    requires
        elf_wf(b),
        0 <= i < spec_ph_count(b),
        spec_ph(b, i).ptype == PT_LOAD,
    ensures
        load_span(b, i).wf(),
        load_span(b, i).len_spec() >= 1,
{
    assert(1 <= spec_ph(b, i).file_size <= spec_ph(b, i).mem_size);
}

/// The frame budget only grows with more headers.
pub proof fn lemma_load_budget_mono(b: Seq<u8>, i: int, k: int)
    requires
        elf_wf(b),
        0 <= i <= k <= spec_ph_count(b),
    ensures
        load_budget(b, i) <= load_budget(b, k),
    decreases k - i,
{
    if i < k {
        lemma_load_budget_mono(b, i, k - 1);
        if spec_ph(b, k - 1).ptype == PT_LOAD {
            lemma_load_span_wf(b, k - 1);
        }
    }
}

/// Whether the image starts with the magic number.
pub fn check_magic(b: &[u8]) -> (r: bool)
    requires
        b@.len() >= 4,
    ensures
        r == (b@[0] == 0x7fu8 && b@[1] == 0x45u8 && b@[2] == 0x4cu8 && b@[3] == 0x46u8),
{
    b[0] == 0x7f && b[1] == 0x45 && b[2] == 0x4c && b[3] == 0x46
}

/// Read program header `i` of a well-formed image.
pub fn read_ph(b: &[u8], i: u64) -> (r: ProgramHeader)
    requires
        elf_wf(b@),
        i < spec_ph_count(b@),
    ensures
        r == spec_ph(b@, i as int),
{
    let phoff = read_le64(b, 32);
    proof {
        assert(spec_ph_count(b@) * PH_ENTRY_SIZE >= (i + 1) * PH_ENTRY_SIZE) by (nonlinear_arith)
            requires
                i < spec_ph_count(b@),
                PH_ENTRY_SIZE == 56,
        ;
    }
    let base = (phoff + i * PH_ENTRY_SIZE) as usize;
    let ptype = read_le32(b, base) as u32;
    let flags = read_le32(b, base + 4) as u32;
    let offset = read_le64(b, base + 8);
    let vaddr = read_le64(b, base + 16);
    let file_size = read_le64(b, base + 32);
    let mem_size = read_le64(b, base + 40);

    ProgramHeader { ptype, flags, offset, vaddr, file_size, mem_size }
}

/// Copy the byte window `[start, end)` of the image out into a fresh vector.
pub fn copy_window(b: &[u8], start: usize, end: usize) -> (r: Vec<u8>)
    requires
        start <= end <= b@.len(),
    ensures
        r@ == b@.subrange(start as int, end as int),
{
    let mut out: Vec<u8> = Vec::new();
    let mut i = start;
    while i < end
        invariant
            start <= i <= end <= b@.len(),
            out@.len() == i - start,
            forall|t: int| 0 <= t < out@.len() ==> out@[t] == b@[start + t],
        decreases end - i,
    {
        out.push(b[i]);
        i = i + 1;
    }
    proof {
        assert(out@ =~= b@.subrange(start as int, end as int));
    }
    out
}

} // verus!
