use vstd::prelude::*;

use crate::align::{align_up_spec, checked_align_up, is_pow2, is_valid_align};

verus! {

/// A committed region `[start, start + size)`, as an offset from the arena's base.
#[derive(Clone, Copy, Debug, PartialEq, Eq, Structural)]
pub struct Region {
    pub start: usize,
    pub size: usize,
}

/// Why a request was not served.
#[derive(Clone, Copy, Debug, PartialEq, Eq, Structural)]
pub enum AllocError {
    /// The request does not fit in the arena's capacity.
    CapacityExhausted,
    /// The requested alignment is not a power of two.
    InvalidRequest,
}

/// The start at which a bump arena holding `offset` committed bytes out of `capacity`
/// serves a request `(size, align)`, or why it cannot.
pub open spec fn bump(offset: int, capacity: int, size: int, align: int) -> Result<
    int,
    AllocError,
> {
    if !is_pow2(align as nat) {
        Err(AllocError::InvalidRequest)
    } else if align_up_spec(offset, align) + size > capacity {
        Err(AllocError::CapacityExhausted)
    } else {
        Ok(align_up_spec(offset, align))
    }
}

/// The committed offset after the request `(size, align)`: unchanged when it failed.
pub open spec fn offset_after(offset: int, capacity: int, size: int, align: int) -> int {
    match bump(offset, capacity, size, align) {
        Ok(start) => start + size,
        Err(_) => offset,
    }
}

/// The outcome, as a region, of a request on an arena in state `(offset, capacity)`.
pub open spec fn bump_region(offset: int, capacity: int, size: int, align: int) -> Result<
    Region,
    AllocError,
> {
    match bump(offset, capacity, size, align) {
        Ok(start) => Ok(Region { start: start as usize, size: size as usize }),
        Err(e) => Err(e),
    }
}

/// Computes `bump`: the aligned start of a request, or the reason it is refused.
pub fn bump_start(offset: usize, capacity: usize, size: usize, align: usize) -> (r: Result<
    usize,
    AllocError,
>)
    requires
        offset <= capacity,
    ensures
        r matches Ok(s) ==> bump(offset as int, capacity as int, size as int, align as int) == Ok::<
            int,
            AllocError,
        >(s as int),
        r matches Err(e) ==> bump(offset as int, capacity as int, size as int, align as int)
            == Err::<int, AllocError>(e),
{
    if !is_valid_align(align) {
        return Err(AllocError::InvalidRequest);
    }
    let start: usize = match checked_align_up(offset, align) {
        Some(start) => start,
        None => return Err(AllocError::CapacityExhausted),
    };
    if start > capacity || size > capacity - start {
        Err(AllocError::CapacityExhausted)
    } else {
        Ok(start)
    }
}

/// Computes `bump` together with the committed offset that follows it: the start of the
/// region and its end, which becomes the new offset; or the reason the request is refused.
pub fn bump_commit(offset: usize, capacity: usize, size: usize, align: usize) -> (r: Result<
    (usize, usize),
    AllocError,
>)
    requires
        offset <= capacity,
    ensures
        r matches Ok((s, e)) ==> bump(offset as int, capacity as int, size as int, align as int)
            == Ok::<int, AllocError>(s as int) && e as int == offset_after(
            offset as int,
            capacity as int,
            size as int,
            align as int,
        ) && e <= capacity,
        r matches Err(x) ==> bump(offset as int, capacity as int, size as int, align as int)
            == Err::<int, AllocError>(x),
{
    match bump_start(offset, capacity, size, align) {
        Ok(start) => Ok((start, start + size)),
        Err(e) => Err(e),
    }
}

/// The starts (or failures) of a sequence of requests `(size, align)` served in order by
/// an arena that begins in state `(offset, capacity)`.
pub open spec fn replay(offset: int, capacity: int, reqs: Seq<(int, int)>) -> Seq<
    Result<int, AllocError>,
>
    decreases reqs.len(),
{
    if reqs.len() == 0 {
        Seq::empty()
    } else {
        let (size, align) = reqs[0];
        seq![bump(offset, capacity, size, align)] + replay(
            offset_after(offset, capacity, size, align),
            capacity,
            reqs.drop_first(),
        )
    }
}

/// The committed offset after a sequence of requests.
pub open spec fn offset_after_all(offset: int, capacity: int, reqs: Seq<(int, int)>) -> int
    decreases reqs.len(),
{
    if reqs.len() == 0 {
        offset
    } else {
        let (size, align) = reqs[0];
        offset_after_all(
            offset_after(offset, capacity, size, align),
            capacity,
            reqs.drop_first(),
        )
    }
}

/// A request is served at an aligned start, at or after the committed offset, and within
/// capacity; the offset then moves to the region's end.
pub proof fn lemma_bump_in_bounds(offset: int, capacity: int, size: int, align: int)
    requires
        0 <= offset,
        0 <= size,
        0 <= align,
    ensures
        bump(offset, capacity, size, align) matches Ok(start) ==> {
            &&& offset <= start
            &&& start + size <= capacity
            &&& start % align == 0
            &&& offset_after(offset, capacity, size, align) == start + size
        },
        offset <= offset_after(offset, capacity, size, align),
{
    if is_pow2(align as nat) {
        lemma_pow2_positive(align as nat);
        vstd::arithmetic::div_mod::lemma_mod_bound(offset, align);
        if offset % align != 0 {
            let s = offset + (align - offset % align);
            vstd::arithmetic::div_mod::lemma_mod_add_multiples_vanish(offset, align);
            assert(s % align == 0) by {
                vstd::arithmetic::div_mod::lemma_fundamental_div_mod(offset, align);
                assert(s == align * (offset / align) + align);
                vstd::arithmetic::div_mod::lemma_mod_multiples_basic(offset / align + 1, align);
                assert(align * (offset / align) + align == (offset / align + 1) * align)
                    by (nonlinear_arith);
            }
        }
    }
}

proof fn lemma_pow2_positive(n: nat)
    requires
        is_pow2(n),
    ensures
        n > 0,
    decreases n,
{
    if n > 1 {
        lemma_pow2_positive(n / 2);
    }
}

/// The committed offset never decreases: not over one request, nor over any sequence of
/// requests.
pub proof fn law_offset_monotone(offset: int, capacity: int, reqs: Seq<(int, int)>)
    requires
        0 <= offset,
        forall|i: int| 0 <= i < reqs.len() ==> reqs[i].0 >= 0 && reqs[i].1 >= 0,
    ensures
        offset <= offset_after_all(offset, capacity, reqs),
    decreases reqs.len(),
{
    if reqs.len() > 0 {
        let (size, align) = reqs[0];
        lemma_bump_in_bounds(offset, capacity, size, align);
        law_offset_monotone(offset_after(offset, capacity, size, align), capacity, reqs.drop_first());
    }
}

proof fn lemma_replay_bounds(offset: int, capacity: int, reqs: Seq<(int, int)>)
    requires
        0 <= offset,
        forall|i: int| 0 <= i < reqs.len() ==> reqs[i].0 >= 0 && reqs[i].1 >= 0,
    ensures
        replay(offset, capacity, reqs).len() == reqs.len(),
        forall|i: int|
            0 <= i < reqs.len() ==> (#[trigger] replay(offset, capacity, reqs)[i] matches Ok(s)
                ==> offset <= s && s + reqs[i].0 <= capacity && s % reqs[i].1 == 0),
    decreases reqs.len(),
{
    if reqs.len() > 0 {
        let (size, align) = reqs[0];
        let next = offset_after(offset, capacity, size, align);
        let rest = reqs.drop_first();
        lemma_bump_in_bounds(offset, capacity, size, align);
        lemma_replay_bounds(next, capacity, rest);
        let r = replay(offset, capacity, reqs);
        assert(r == seq![bump(offset, capacity, size, align)] + replay(next, capacity, rest));
        assert forall|i: int|
            0 <= i < reqs.len() implies (#[trigger] r[i] matches Ok(s) ==> offset <= s && s
                + reqs[i].0 <= capacity && s % reqs[i].1 == 0) by {
            if i > 0 {
                assert(r[i] == replay(next, capacity, rest)[i - 1]);
                assert(reqs[i] == rest[i - 1]);
            }
        }
    }
}

/// Every successful request of a sequence is served at a start that is a multiple of its
/// alignment, and the regions of two successful requests are disjoint: the later one
/// starts at or after the end of the earlier one.
pub proof fn law_regions_disjoint(offset: int, capacity: int, reqs: Seq<(int, int)>)
    requires
        0 <= offset,
        forall|i: int| 0 <= i < reqs.len() ==> reqs[i].0 >= 0 && reqs[i].1 >= 0,
    ensures
        replay(offset, capacity, reqs).len() == reqs.len(),
        forall|i: int|
            0 <= i < reqs.len() ==> (#[trigger] replay(offset, capacity, reqs)[i] matches Ok(s)
                ==> s % reqs[i].1 == 0 && s + reqs[i].0 <= capacity),
        forall|i: int, j: int|
            0 <= i < j < reqs.len() ==> (#[trigger] replay(offset, capacity, reqs)[i] matches Ok(
                si,
            ) ==> (#[trigger] replay(offset, capacity, reqs)[j] matches Ok(sj) ==> si
                + reqs[i].0 <= sj)),
    decreases reqs.len(),
{
    lemma_replay_bounds(offset, capacity, reqs);
    if reqs.len() > 0 {
        let (size, align) = reqs[0];
        let next = offset_after(offset, capacity, size, align);
        let rest = reqs.drop_first();
        lemma_bump_in_bounds(offset, capacity, size, align);
        lemma_replay_bounds(next, capacity, rest);
        law_regions_disjoint(next, capacity, rest);
        let r = replay(offset, capacity, reqs);
        assert(r == seq![bump(offset, capacity, size, align)] + replay(next, capacity, rest));
        assert forall|i: int, j: int|
            0 <= i < j < reqs.len() implies (#[trigger] r[i] matches Ok(si) ==> (#[trigger] r[j] matches Ok(
                sj,
            ) ==> si + reqs[i].0 <= sj)) by {
            assert(r[j] == replay(next, capacity, rest)[j - 1]);
            assert(reqs[j] == rest[j - 1]);
            if i > 0 {
                assert(r[i] == replay(next, capacity, rest)[i - 1]);
                assert(reqs[i] == rest[i - 1]);
            }
        }
    }
}

/// Releasing a region and then asking for the same size never hands the released
/// address out again: the next region starts at or after the released one's end.
pub proof fn law_no_reuse_after_release(
    offset: int,
    capacity: int,
    size: int,
    align: int,
    next_align: int,
)
    requires
        0 <= offset,
        0 < size,
        0 <= align,
        0 <= next_align,
        bump(offset, capacity, size, align) is Ok,
    ensures
        ({
            let start = bump(offset, capacity, size, align)->Ok_0;
            let after = offset_after(offset, capacity, size, align);
            bump(after, capacity, size, next_align) matches Ok(next) ==> start + size <= next
                && next != start
        }),
{
    lemma_bump_in_bounds(offset, capacity, size, align);
    lemma_bump_in_bounds(offset_after(offset, capacity, size, align), capacity, size, next_align);
}

/// On an empty arena of capacity `c`, a request for `c + 1` bytes at alignment 1 fails
/// with `CapacityExhausted` and leaves the offset at zero.
pub proof fn law_oversized_request_fails(c: int)
    requires
        0 <= c,
    ensures
        bump(0, c, c + 1, 1) == Err::<int, AllocError>(AllocError::CapacityExhausted),
        offset_after(0, c, c + 1, 1) == 0,
{
    assert(is_pow2(1));
    assert(align_up_spec(0, 1) == 0);
}


/// The allocation-request protocol served by every arena of this library: a request
/// `(size, align)` is served by bumping the committed offset, and a release is a no-op.
pub trait BumpAllocator: Sized {
    /// The arena's state is consistent: `0 <= committed <= capacity`.
    spec fn wf(&self) -> bool;

    /// Bytes committed so far.
    spec fn committed(&self) -> int;

    /// Bytes available in total.
    spec fn capacity_bytes(&self) -> int;

    /// Serves `(size, align)` at `bump` of the current state, and commits the region.
    fn allocate(&mut self, size: usize, align: usize) -> (r: Result<Region, AllocError>)
        requires
            old(self).wf(),
        ensures
            final(self).wf(),
            r == bump_region(old(self).committed(), old(self).capacity_bytes(), size as int, align as int),
            final(self).committed() == offset_after(
                old(self).committed(),
                old(self).capacity_bytes(),
                size as int,
                align as int,
            ),
            final(self).capacity_bytes() == old(self).capacity_bytes(),
    ;

    /// Releases nothing: an arena never reuses memory before it is destroyed or recreated,
    /// so the committed offset and the capacity stay as they were.
    fn deallocate(&mut self, region: Region, align: usize)
        requires
            old(self).wf(),
        ensures
            final(self).wf(),
            final(self).committed() == old(self).committed(),
            final(self).capacity_bytes() == old(self).capacity_bytes(),
    ;
}

} // verus!
