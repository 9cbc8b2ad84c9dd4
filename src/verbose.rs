use vstd::prelude::*;

use crate::bump::{bump_region, offset_after, AllocError, BumpAllocator, Region};

verus! {

/// `n + 1`, held at `u64::MAX`.
pub open spec fn saturating_inc(n: u64) -> u64 {
    if n == u64::MAX {
        n
    } else {
        (n + 1) as u64
    }
}

fn inc(n: u64) -> (r: u64)
    ensures
        r == saturating_inc(n),
{
    if n == u64::MAX {
        n
    } else {
        n + 1
    }
}

/// Wraps an arena and counts the events it sees: requests served, requests refused and
/// releases. The counts stop at `u64::MAX`.
#[derive(Debug)]
pub struct VerboseAllocator<A> {
    inner: A,
    allocations: u64,
    failures: u64,
    deallocations: u64,
}

impl<A: BumpAllocator> VerboseAllocator<A> {
    pub closed spec fn spec_inner(&self) -> A {
        self.inner
    }

    pub closed spec fn spec_allocations(&self) -> u64 {
        self.allocations
    }

    pub closed spec fn spec_failures(&self) -> u64 {
        self.failures
    }

    pub closed spec fn spec_deallocations(&self) -> u64 {
        self.deallocations
    }

    /// Wraps `inner`, with every count at zero.
    pub fn new(inner: A) -> (r: VerboseAllocator<A>)
        ensures
            r.spec_inner() == inner,
            r.spec_allocations() == 0,
            r.spec_failures() == 0,
            r.spec_deallocations() == 0,
    {
        VerboseAllocator { inner, allocations: 0, failures: 0, deallocations: 0 }
    }

    /// The wrapped arena.
    pub fn inner(&self) -> (r: &A)
        ensures
            *r == self.spec_inner(),
    {
        &self.inner
    }

    /// Requests served so far.
    pub fn allocations(&self) -> (r: u64)
        ensures
            r == self.spec_allocations(),
    {
        self.allocations
    }

    /// Requests refused so far.
    pub fn failures(&self) -> (r: u64)
        ensures
            r == self.spec_failures(),
    {
        self.failures
    }

    /// Releases seen so far.
    pub fn deallocations(&self) -> (r: u64)
        ensures
            r == self.spec_deallocations(),
    {
        self.deallocations
    }

    /// Serves the request through the wrapped arena, and counts it as served or refused.
    pub fn allocate_counted(&mut self, size: usize, align: usize) -> (r: Result<Region, AllocError>)
        requires
            old(self).spec_inner().wf(),
        ensures
            final(self).spec_inner().wf(),
            r == bump_region(
                old(self).spec_inner().committed(),
                old(self).spec_inner().capacity_bytes(),
                size as int,
                align as int,
            ),
            final(self).spec_inner().committed() == offset_after(
                old(self).spec_inner().committed(),
                old(self).spec_inner().capacity_bytes(),
                size as int,
                align as int,
            ),
            final(self).spec_inner().capacity_bytes() == old(self).spec_inner().capacity_bytes(),
            r is Ok ==> final(self).spec_allocations() == saturating_inc(old(self).spec_allocations())
                && final(self).spec_failures() == old(self).spec_failures(),
            r is Err ==> final(self).spec_failures() == saturating_inc(old(self).spec_failures())
                && final(self).spec_allocations() == old(self).spec_allocations(),
            final(self).spec_deallocations() == old(self).spec_deallocations(),
    {
        let r = self.inner.allocate(size, align);
        if r.is_ok() {
            self.allocations = inc(self.allocations);
        } else {
            self.failures = inc(self.failures);
        }
        r
    }

    /// Passes the release on to the wrapped arena, and counts it.
    pub fn deallocate_counted(&mut self, region: Region, align: usize)
        requires
            old(self).spec_inner().wf(),
        ensures
            final(self).spec_inner().wf(),
            final(self).spec_inner().committed() == old(self).spec_inner().committed(),
            final(self).spec_inner().capacity_bytes() == old(self).spec_inner().capacity_bytes(),
            final(self).spec_deallocations() == saturating_inc(old(self).spec_deallocations()),
            final(self).spec_allocations() == old(self).spec_allocations(),
            final(self).spec_failures() == old(self).spec_failures(),
    {
        self.inner.deallocate(region, align);
        self.deallocations = inc(self.deallocations);
    }
}

impl<A: BumpAllocator> BumpAllocator for VerboseAllocator<A> {
    open spec fn wf(&self) -> bool {
        self.spec_inner().wf()
    }

    open spec fn committed(&self) -> int {
        self.spec_inner().committed()
    }

    open spec fn capacity_bytes(&self) -> int {
        self.spec_inner().capacity_bytes()
    }

    fn allocate(&mut self, size: usize, align: usize) -> (r: Result<Region, AllocError>) {
        self.allocate_counted(size, align)
    }

    fn deallocate(&mut self, region: Region, align: usize) {
        self.deallocate_counted(region, align)
    }
}

} // verus!
