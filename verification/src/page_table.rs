//! The three-level (SV39-style) page table: a radix tree from virtual page
//! numbers to page-table entries.  Intermediate directory frames are taken
//! from the frame allocator on demand and are never reclaimed by `unmap`.
//!
//! A walk indexes the root with bits 26..18 of the page number and the middle
//! level with bits 17..9, so the tree's two directory layers are keyed here by
//! `vpn >> 18` and `vpn >> 9`.  `map` refuses to overwrite a valid leaf entry
//! (`PageAlreadyAlloc`), and a failing `map` changes nothing: the frames the
//! walk would need are counted before any is taken.

use vstd::prelude::*;
use crate::error::{MMError, MMResult, PageError};
use crate::frame_alloc::FrameAllocator;
use crate::keymap::KeyMap;

verus! {

/// Entry flag: the entry is valid.
pub const PTE_V: u8 = 1;

/// Entry flag: readable.
pub const PTE_R: u8 = 2;

/// Entry flag: writable.
pub const PTE_W: u8 = 4;

/// Entry flag: executable.
pub const PTE_X: u8 = 8;

/// Entry flag: accessible from user mode.
pub const PTE_U: u8 = 16;

/// A leaf page-table entry: a physical page number and a flag set.
#[derive(Clone, Copy, PartialEq, Eq, Structural, Debug)]
pub struct PageTableEntry {
    /// The physical page the entry points at.
    pub ppn: u64,
    /// The entry's flag bits.
    pub flags: u8,
}

impl PageTableEntry {
    /// Build an entry from a frame and flag bits.
    pub fn new(ppn: u64, flags: u8) -> (r: PageTableEntry)
        ensures
            r.ppn == ppn,
            r.flags == flags,
    {
        PageTableEntry { ppn, flags }
    }

    /// The physical page number the entry points at.
    pub fn get_ppn(&self) -> (r: u64)
        ensures
            r == self.ppn,
    {
        self.ppn
    }

    /// Whether the entry is valid.
    pub fn valid(&self) -> (r: bool)
        ensures
            r == (self.flags & PTE_V != 0),
    {
        self.flags & PTE_V != 0
    }

    /// Whether the page may be read.
    pub fn readable(&self) -> (r: bool)
        ensures
            r == (self.flags & PTE_R != 0),
    {
        self.flags & PTE_R != 0
    }

    /// Whether the page may be written.
    pub fn writable(&self) -> (r: bool)
        ensures
            r == (self.flags & PTE_W != 0),
    {
        self.flags & PTE_W != 0
    }

    /// Whether the page may be executed.
    pub fn executable(&self) -> (r: bool)
        ensures
            r == (self.flags & PTE_X != 0),
    {
        self.flags & PTE_X != 0
    }

    /// Whether user mode may touch the page.
    pub fn user_accessible(&self) -> (r: bool)
        ensures
            r == (self.flags & PTE_U != 0),
    {
        self.flags & PTE_U != 0
    }
}

/// A three-level page table.  `dir1` records the level-1 directory frame of
/// each root slot in use, `dir0` the leaf-directory frame of each level-1
/// slot in use, and `leaf` the valid leaf entries.
pub struct PageTable {
    /// Frame holding the root directory.
    pub root_ppn: u64,
    /// Level-1 directory frames, keyed by `vpn >> 18`.
    pub dir1: KeyMap<u64>,
    /// Leaf directory frames, keyed by `vpn >> 9`.
    pub dir0: KeyMap<u64>,
    /// Valid leaf entries, keyed by `vpn`.
    pub leaf: KeyMap<PageTableEntry>,
}

impl PageTable {
    /// Structural invariant: the maps are well formed and a valid leaf entry
    /// always sits below directories that exist.
    pub open spec fn wf(self) -> bool {
        &&& self.dir1.wf()
        &&& self.dir0.wf()
        &&& self.leaf.wf()
        &&& forall|v: u64|
            #[trigger] self.leaf@.contains_key(v) ==> self.dir0@.contains_key(v >> 9)
        &&& forall|k: u64|
            #[trigger] self.dir0@.contains_key(k) ==> self.dir1@.contains_key(k >> 9)
    }

    /// Both directories of the walk to `vpn` exist.
    pub open spec fn dirs_present(self, vpn: u64) -> bool {
        self.dir1@.contains_key(vpn >> 18) && self.dir0@.contains_key(vpn >> 9)
    }

    /// The valid leaf entries as a mathematical map.
    pub open spec fn mapping(self) -> Map<u64, PageTableEntry> {
        self.leaf@
    }

    /// Every frame the table owns is currently handed out by the allocator.
    pub open spec fn frames_ok(self, fa: FrameAllocator) -> bool {
        &&& fa.allocated(self.root_ppn)
        &&& forall|k: u64|
            #[trigger] self.dir1@.contains_key(k) ==> fa.allocated(self.dir1@[k])
        &&& forall|k: u64|
            #[trigger] self.dir0@.contains_key(k) ==> fa.allocated(self.dir0@[k])
    }

    /// Whether the table owns frame `p` (as its root or a directory frame).
    pub open spec fn owns(self, p: u64) -> bool {
        ||| p == self.root_ppn
        ||| exists|k: u64| #[trigger] self.dir1@.contains_key(k) && self.dir1@[k] == p
        ||| exists|k: u64| #[trigger] self.dir0@.contains_key(k) && self.dir0@[k] == p
    }

    /// Number of directory frames a `map` of `vpn` would have to take.
    pub open spec fn dirs_missing(self, vpn: u64) -> int {
        (if self.dir1@.contains_key(vpn >> 18) { 0int } else { 1int })
            + (if self.dir0@.contains_key(vpn >> 9) { 0int } else { 1int })
    }

    /// Allocate a root frame and return an empty table.
    pub fn new(fa: &mut FrameAllocator) -> (r: MMResult<PageTable>)
        requires
            old(fa).wf(),
        ensures
            final(fa).wf(),
            final(fa).same_pool(*old(fa)),
            r.is_ok() == (old(fa).free_count() > 0),
            match r {
                Ok(pt) => {
                    &&& pt.wf()
                    &&& pt.frames_ok(*final(fa))
                    &&& pt.mapping() == Map::<u64, PageTableEntry>::empty()
                    &&& pt.dir1@ == Map::<u64, u64>::empty()
                    &&& pt.dir0@ == Map::<u64, u64>::empty()
                    &&& old(fa).is_free(pt.root_ppn)
                    &&& forall|q: u64|
                        q != pt.root_ppn ==> final(fa).is_free(q) == old(fa).is_free(q)
                    &&& forall|q: u64|
                        final(fa).allocated(q) == (old(fa).allocated(q) || q == pt.root_ppn)
                    &&& final(fa).free_count() == old(fa).free_count() - 1
                },
                Err(e) => e == MMError::MemoryNotEnough && *final(fa) == *old(fa),
            },
    {
        match fa.frame_alloc() {
            Some(root) => Ok(
                PageTable {
                    root_ppn: root,
                    dir1: KeyMap::new(),
                    dir0: KeyMap::new(),
                    leaf: KeyMap::new(),
                },
            ),
            None => Err(MMError::MemoryNotEnough),
        }
    }

    /// The value that activates this table when written to the MMU's
    /// table-base control register: the SV39 mode field plus the root frame.
    pub fn token(&self) -> (r: u64)
        ensures
            r == (8u64 << 60) | self.root_ppn,
    {
        (8u64 << 60) | self.root_ppn
    }

    /// Install a leaf entry for `vpn`, allocating the missing directories of
    /// the walk first.  Refuses to overwrite a valid entry, and a failure
    /// changes nothing: the missing directory frames are counted before any
    /// is taken.
    #[verifier::rlimit(100)]
    #[verifier::spinoff_prover]
    pub fn map(&mut self, fa: &mut FrameAllocator, vpn: u64, ppn: u64, flags: u8) -> (r: MMResult<
        (),
    >)
        requires
            old(self).wf(),
            old(fa).wf(),
            old(self).frames_ok(*old(fa)),
        ensures
            final(self).wf(),
            final(fa).wf(),
            final(fa).same_pool(*old(fa)),
            final(self).frames_ok(*final(fa)),
            final(self).root_ppn == old(self).root_ppn,
            r.is_ok() == (!old(self).mapping().contains_key(vpn) && old(fa).free_count()
                >= old(self).dirs_missing(vpn)),
            match r {
                Ok(()) => {
                    &&& final(self).mapping() == old(self).mapping().insert(
                        vpn,
                        PageTableEntry { ppn, flags: flags | PTE_V },
                    )
                    &&& final(self).dirs_present(vpn)
                    &&& forall|k: u64|
                        final(self).dir1@.contains_key(k) == (old(self).dir1@.contains_key(k) || k
                            == vpn >> 18)
                    &&& forall|k: u64|
                        final(self).dir0@.contains_key(k) == (old(self).dir0@.contains_key(k) || k
                            == vpn >> 9)
                    &&& forall|k: u64|
                        #[trigger] old(self).dir1@.contains_key(k) ==> final(self).dir1@[k] == old(self).dir1@[k]
                    &&& forall|k: u64|
                        #[trigger] old(self).dir0@.contains_key(k) ==> final(self).dir0@[k] == old(self).dir0@[k]
                    &&& forall|q: u64| old(fa).allocated(q) ==> final(fa).allocated(q)
                    &&& !old(self).dir1@.contains_key(vpn >> 18) ==> old(fa).is_free(
                        final(self).dir1@[vpn >> 18],
                    )
                    &&& !old(self).dir0@.contains_key(vpn >> 9) ==> old(fa).is_free(
                        final(self).dir0@[vpn >> 9],
                    )
                    &&& final(self).dir1.spec_len() == old(self).dir1.spec_len() + (if old(self).dir1@.contains_key(vpn >> 18) {
                        0int
                    } else {
                        1int
                    })
                    &&& final(self).dir0.spec_len() == old(self).dir0.spec_len() + (if old(self).dir0@.contains_key(vpn >> 9) {
                        0int
                    } else {
                        1int
                    })
                    &&& final(self).leaf.spec_len() == old(self).leaf.spec_len() + 1
                    &&& final(fa).free_count() == old(fa).free_count() - old(self).dirs_missing(vpn)
                },
                Err(e) => {
                    &&& *final(self) == *old(self)
                    &&& *final(fa) == *old(fa)
                    &&& (e == MMError::PageError(PageError::PageAlreadyAlloc) <==> old(self).mapping().contains_key(vpn))
                    &&& (e == MMError::MemoryNotEnough <==> !old(self).mapping().contains_key(vpn)
                        && old(fa).free_count() < old(self).dirs_missing(vpn))
                },
            },
    {
        let k1 = vpn >> 18;
        let k0 = vpn >> 9;
        if self.leaf.contains_key(vpn) {
            return Err(MMError::PageError(PageError::PageAlreadyAlloc));
        }
        let need1 = !self.dir1.contains_key(k1);
        let need0 = !self.dir0.contains_key(k0);
        let missing: u128 = (if need1 {
            1
        } else {
            0
        }) + (if need0 {
            1
        } else {
            0
        });
        if fa.free_frames() < missing {
            return Err(MMError::MemoryNotEnough);
        }
        if need1 {
            match fa.frame_alloc() {
                Some(f) => self.dir1.insert(k1, f),
                None => {
                    proof {
                        assert(false);
                    }
                },
            }
        }
        if need0 {
            match fa.frame_alloc() {
                Some(f) => self.dir0.insert(k0, f),
                None => {
                    proof {
                        assert(false);
                    }
                },
            }
        }
        self.leaf.insert(vpn, PageTableEntry { ppn, flags: flags | PTE_V });
        proof {
            assert forall|v: u64| true implies (v >> 9) >> 9 == v >> 18 by {
                assert((v >> 9) >> 9 == v >> 18) by (bit_vector);
            };
        }
        Ok(())
    }

    /// Clear the leaf entry of `vpn`.  Directory frames stay in place: there
    /// is no directory reclamation.
    pub fn unmap(&mut self, vpn: u64) -> (r: MMResult<()>)
        requires
            old(self).wf(),
        ensures
            final(self).wf(),
            final(self).root_ppn == old(self).root_ppn,
            final(self).dir1 == old(self).dir1,
            final(self).dir0 == old(self).dir0,
            final(self).dir1@ == old(self).dir1@,
            final(self).dir0@ == old(self).dir0@,
            r == if !old(self).dirs_present(vpn) {
                Err::<(), MMError>(MMError::PageError(PageError::DirPageInvalid))
            } else if !old(self).mapping().contains_key(vpn) {
                Err::<(), MMError>(MMError::PageError(PageError::PageInvalid))
            } else {
                Ok::<(), MMError>(())
            },
            r.is_ok() ==> final(self).mapping() == old(self).mapping().remove(vpn),
            r.is_err() ==> final(self).mapping() == old(self).mapping(),
    {
        if !self.dir1.contains_key(vpn >> 18) || !self.dir0.contains_key(vpn >> 9) {
            return Err(MMError::PageError(PageError::DirPageInvalid));
        }
        match self.leaf.remove(vpn) {
            Some(_) => Ok(()),
            None => {
                proof {
                    assert(self.leaf@ =~= old(self).leaf@.remove(vpn));
                }
                Err(MMError::PageError(PageError::PageInvalid))
            },
        }
    }

    /// Look up the leaf entry of `vpn`.
    pub fn translate(&self, vpn: u64) -> (r: MMResult<PageTableEntry>)
        requires
            self.wf(),
        ensures
            r == if !self.dirs_present(vpn) {
                Err::<PageTableEntry, MMError>(MMError::PageError(PageError::DirPageInvalid))
            } else if !self.mapping().contains_key(vpn) {
                Err::<PageTableEntry, MMError>(MMError::PageError(PageError::PageInvalid))
            } else {
                Ok::<PageTableEntry, MMError>(self.mapping()[vpn])
            },
    {
        if !self.dir1.contains_key(vpn >> 18) || !self.dir0.contains_key(vpn >> 9) {
            return Err(MMError::PageError(PageError::DirPageInvalid));
        }
        match self.leaf.get(vpn) {
            Some(pte) => Ok(pte),
            None => Err(MMError::PageError(PageError::PageInvalid)),
        }
    }
}

} // verus!
