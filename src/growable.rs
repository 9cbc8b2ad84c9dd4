use vstd::prelude::*;

use crate::align::{align_up_spec, checked_align_up, is_pow2};
use crate::bump::{bump, bump_start, AllocError, BumpAllocator, Region};

verus! {

/// The granularity, in bytes, of every extension of a growable arena.
pub const PAGE_SIZE: usize = 4096;

/// How many bytes a growable arena in state `(offset, capacity)` must be extended by
/// before it can serve `(size, align)`: zero when the request already fits, else the
/// shortfall rounded up to whole pages. `CapacityExhausted` where the extended capacity
/// would not fit in a `usize`.
pub open spec fn growth_for(offset: int, capacity: int, size: int, align: int) -> Result<
    int,
    AllocError,
> {
    if !is_pow2(align as nat) {
        Err(AllocError::InvalidRequest)
    } else if align_up_spec(offset, align) + size <= capacity {
        Ok(0)
    } else {
        let delta = align_up_spec(
            align_up_spec(offset, align) + size - capacity,
            PAGE_SIZE as int,
        );
        if capacity + delta > usize::MAX {
            Err(AllocError::CapacityExhausted)
        } else {
            Ok(delta)
        }
    }
}

proof fn lemma_page_is_pow2()
    ensures
        is_pow2(PAGE_SIZE as nat),
{
    reveal_with_fuel(is_pow2, 14);
}

proof fn lemma_align_up_bounds(o: int, a: int)
    requires
        0 <= o,
        0 < a,
    ensures
        o <= align_up_spec(o, a) < o + a,
        align_up_spec(o, a) % a == 0,
{
    vstd::arithmetic::div_mod::lemma_mod_bound(o, a);
    if o % a != 0 {
        vstd::arithmetic::div_mod::lemma_fundamental_div_mod(o, a);
        let s = o + (a - o % a);
        assert(s == (o / a + 1) * a) by (nonlinear_arith)
            requires
                o == a * (o / a) + o % a,
                s == o + (a - o % a),
        ;
        vstd::arithmetic::div_mod::lemma_mod_multiples_basic(o / a + 1, a);
    }
}

/// By how many bytes the heap must be extended before `(size, align)` can be served:
/// `growth_for` of the state `(offset, capacity)`.
pub fn growth_step(offset: usize, capacity: usize, size: usize, align: usize) -> (r: Result<
    usize,
    AllocError,
>)
    requires
        offset <= capacity,
    ensures
        r matches Ok(d) ==> growth_for(offset as int, capacity as int, size as int, align as int)
            == Ok::<int, AllocError>(d as int),
        r matches Err(e) ==> growth_for(offset as int, capacity as int, size as int, align as int)
            == Err::<int, AllocError>(e),
{
    match bump_start(offset, capacity, size, align) {
        Ok(_) => return Ok(0),
        Err(AllocError::InvalidRequest) => return Err(AllocError::InvalidRequest),
        Err(AllocError::CapacityExhausted) => {},
    }
    proof {
        lemma_page_is_pow2();
    }
    let start: usize = match checked_align_up(offset, align) {
        Some(s) => s,
        None => {
            proof {
                lemma_align_up_bounds(
                    align_up_spec(offset as int, align as int) + size - capacity,
                    PAGE_SIZE as int,
                );
            }
            return Err(AllocError::CapacityExhausted);
        },
    };
    if start > usize::MAX - size {
        proof {
            lemma_align_up_bounds(start + size - capacity, PAGE_SIZE as int);
        }
        return Err(AllocError::CapacityExhausted);
    }
    let shortfall: usize = start + size - capacity;
    let delta: usize = match checked_align_up(shortfall, PAGE_SIZE) {
        Some(d) => d,
        None => {
            return Err(AllocError::CapacityExhausted);
        },
    };
    if capacity > usize::MAX - delta {
        Err(AllocError::CapacityExhausted)
    } else {
        Ok(delta)
    }
}

/// The capacity after an extension of `delta` bytes, or `None` where it does not fit in a
/// `usize`.
pub fn grown_capacity(capacity: usize, delta: usize) -> (r: Option<usize>)
    ensures
        r matches Some(n) ==> n == capacity + delta,
        r is None <==> capacity + delta > usize::MAX,
{
    if capacity > usize::MAX - delta {
        None
    } else {
        Some(capacity + delta)
    }
}

/// A bump arena whose capacity is extended on demand by the environment's heap, in
/// whole pages, and never shrinks. Used by a single owner.
///
/// A request is served in two steps: `growth_needed` says by how many bytes the heap must
/// first be extended; once the environment has granted that many contiguous bytes,
/// `increase_heap_size` records them, and `allocate` commits the region.
#[derive(Debug)]
pub struct SbrkAllocator {
    size: usize,
    offset: usize,
}

impl SbrkAllocator {
    pub closed spec fn spec_size(&self) -> int {
        self.size as int
    }

    pub closed spec fn spec_offset(&self) -> int {
        self.offset as int
    }

    /// An empty arena: no capacity, nothing committed.
    pub fn new() -> (r: SbrkAllocator)
        ensures
            r.wf(),
            r.spec_size() == 0,
            r.spec_offset() == 0,
    {
        SbrkAllocator { size: 0, offset: 0 }
    }

    /// Bytes obtained from the environment so far.
    pub fn capacity(&self) -> (r: usize)
        ensures
            r == self.spec_size(),
    {
        self.size
    }

    /// Bytes committed so far.
    pub fn offset(&self) -> (r: usize)
        ensures
            r == self.spec_offset(),
    {
        self.offset
    }

    /// By how many bytes the heap must be extended before `(size, align)` can be served:
    /// `growth_for` of the current state.
    pub fn growth_needed(&self, size: usize, align: usize) -> (r: Result<usize, AllocError>)
        requires
            self.wf(),
        ensures
            r matches Ok(d) ==> growth_for(self.spec_offset(), self.spec_size(), size as int, align as int)
                == Ok::<int, AllocError>(d as int),
            r matches Err(e) ==> growth_for(self.spec_offset(), self.spec_size(), size as int, align as int)
                == Err::<int, AllocError>(e),
    {
        growth_step(self.offset, self.size, size, align)
    }

    /// Records that the environment extended the heap, contiguously, by `delta` bytes.
    /// `CapacityExhausted`, with nothing changed, where the new capacity would not fit in a
    /// `usize`.
    pub fn increase_heap_size(&mut self, delta: usize) -> (r: Result<(), AllocError>)
        requires
            old(self).wf(),
        ensures
            final(self).wf(),
            final(self).spec_offset() == old(self).spec_offset(),
            r is Ok <==> old(self).spec_size() + delta <= usize::MAX,
            r is Ok ==> final(self).spec_size() == old(self).spec_size() + delta,
            r is Err ==> final(self).spec_size() == old(self).spec_size() && r == Err::<(), AllocError>(
                AllocError::CapacityExhausted,
            ),
    {
        match grown_capacity(self.size, delta) {
            Some(n) => {
                self.size = n;
                Ok(())
            },
            None => Err(AllocError::CapacityExhausted),
        }
    }
}

impl BumpAllocator for SbrkAllocator {
    open spec fn wf(&self) -> bool {
        self.spec_offset() <= self.spec_size()
    }

    open spec fn committed(&self) -> int {
        self.spec_offset()
    }

    open spec fn capacity_bytes(&self) -> int {
        self.spec_size()
    }

    fn allocate(&mut self, size: usize, align: usize) -> (r: Result<Region, AllocError>) {
        match bump_start(self.offset, self.size, size, align) {
            Ok(start) => {
                self.offset = start + size;
                Ok(Region { start, size })
            },
            Err(e) => Err(e),
        }
    }

    fn deallocate(&mut self, region: Region, align: usize) {
    }
}

/// A request that does not fit calls for exactly one growth step: it covers the shortfall,
/// rounded up to whole pages and by less than one page more, and once it has been granted
/// the same request is served.
pub proof fn law_one_growth_suffices(offset: int, capacity: int, size: int, align: int)
    requires
        0 <= offset <= capacity,
        0 <= size,
        0 <= align,
        growth_for(offset, capacity, size, align) matches Ok(d) && d > 0,
    ensures
        ({
            let d = growth_for(offset, capacity, size, align)->Ok_0;
            let shortfall = align_up_spec(offset, align) + size - capacity;
            &&& bump(offset, capacity, size, align) == Err::<int, AllocError>(
                AllocError::CapacityExhausted,
            )
            &&& shortfall <= d < shortfall + PAGE_SIZE
            &&& d % (PAGE_SIZE as int) == 0
            &&& bump(offset, capacity + d, size, align) == Ok::<int, AllocError>(
                align_up_spec(offset, align),
            )
        }),
{
    let shortfall = align_up_spec(offset, align) + size - capacity;
    lemma_align_up_bounds(shortfall, PAGE_SIZE as int);
}

/// A request that fits calls for no growth and is served as it stands.
pub proof fn law_no_growth_when_fits(offset: int, capacity: int, size: int, align: int)
    requires
        0 <= offset <= capacity,
        0 <= size,
        growth_for(offset, capacity, size, align) == Ok::<int, AllocError>(0),
    ensures
        bump(offset, capacity, size, align) is Ok,
{
    if align_up_spec(offset, align) + size > capacity {
        let shortfall = align_up_spec(offset, align) + size - capacity;
        lemma_align_up_bounds(shortfall, PAGE_SIZE as int);
    }
}

} // verus!
