use vstd::prelude::*;

use crate::bump::{bump_start, AllocError, BumpAllocator, Region};

verus! {

/// Who is responsible for the arena's backing memory.
#[derive(Clone, Copy, Debug, PartialEq, Eq, Structural)]
pub enum Backing {
    /// The arena reserved its memory and releases it when destroyed.
    Owned,
    /// The memory was supplied by the caller and is never released by the arena.
    Borrowed,
}

/// A bump arena over one region of fixed capacity, used by a single owner.
#[derive(Debug)]
pub struct ArenaAllocator {
    size: usize,
    offset: usize,
    backing: Backing,
}

impl ArenaAllocator {
    pub closed spec fn spec_size(&self) -> int {
        self.size as int
    }

    pub closed spec fn spec_offset(&self) -> int {
        self.offset as int
    }

    pub closed spec fn spec_backing(&self) -> Backing {
        self.backing
    }

    /// An arena over `size` bytes of memory reserved for it, which it owns and releases
    /// when destroyed.
    pub fn with_capacity(size: usize) -> (r: ArenaAllocator)
        ensures
            r.wf(),
            r.spec_size() == size,
            r.spec_offset() == 0,
            r.spec_backing() == Backing::Owned,
    {
        ArenaAllocator { size, offset: 0, backing: Backing::Owned }
    }

    /// An arena over a caller-supplied region of `len` bytes, which it borrows.
    pub fn from_ptr(len: usize) -> (r: ArenaAllocator)
        ensures
            r.wf(),
            r.spec_size() == len,
            r.spec_offset() == 0,
            r.spec_backing() == Backing::Borrowed,
    {
        ArenaAllocator { size: len, offset: 0, backing: Backing::Borrowed }
    }

    /// Total bytes of the region.
    pub fn capacity(&self) -> (r: usize)
        ensures
            r == self.spec_size(),
    {
        self.size
    }

    /// Bytes committed so far.
    pub fn offset(&self) -> (r: usize)
        ensures
            r == self.spec_offset(),
    {
        self.offset
    }

    /// Whether the arena owns its memory.
    pub fn backing(&self) -> (r: Backing)
        ensures
            r == self.spec_backing(),
    {
        self.backing
    }

    /// A fresh arena of the same capacity and ownership, with nothing committed.
    /// Only an owned arena can be duplicated (the copy reserves memory of its own);
    /// a copy of a borrowed one would hand out the same memory twice, so it is refused.
    pub fn duplicate(&self) -> (r: Option<ArenaAllocator>)
        ensures
            self.spec_backing() == Backing::Owned <==> r is Some,
            r matches Some(a) ==> a.wf() && a.spec_size() == self.spec_size() && a.spec_offset()
                == 0 && a.spec_backing() == Backing::Owned,
    {
        match self.backing {
            Backing::Owned => Some(ArenaAllocator::with_capacity(self.size)),
            Backing::Borrowed => None,
        }
    }
}

impl BumpAllocator for ArenaAllocator {
    open spec fn wf(&self) -> bool {
        self.spec_offset() <= self.spec_size()
    }

    open spec fn committed(&self) -> int {
        self.spec_offset()
    }

    open spec fn capacity_bytes(&self) -> int {
        self.spec_size()
    }

    fn allocate(&mut self, size: usize, align: usize) -> (r: Result<Region, AllocError>) {
        match bump_start(self.offset, self.size, size, align) {
            Ok(start) => {
                self.offset = start + size;
                Ok(Region { start, size })
            },
            Err(e) => Err(e),
        }
    }

    fn deallocate(&mut self, region: Region, align: usize) {
    }
}

} // verus!
