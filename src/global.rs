use vstd::prelude::*;

use std::sync::atomic::{AtomicUsize, Ordering};

use crate::align::is_pow2;
use crate::bump::{bump, bump_commit, lemma_bump_in_bounds, AllocError};
use crate::growable::{grown_capacity, growth_for, growth_step, law_no_growth_when_fits};

verus! {

/// Relies on `AtomicUsize::compare_exchange`: it stores `new` only where the value held is
/// `current`; on success it returns the previous value, which then equals `current`, and on
/// failure the value it found instead.
#[verifier::external_body]
fn compare_and_commit(cell: &AtomicUsize, current: usize, new: usize) -> (r: Result<usize, usize>)
    ensures
        r matches Ok(v) ==> v == current,
        r matches Err(v) ==> v != current,
{
    cell.compare_exchange(current, new, Ordering::AcqRel, Ordering::Acquire)
}

/// The capacity, in bytes, of the arena behind `SimpleAlloc`.
pub const ARENA_SIZE: usize = 128 * 1024 * 1024;

/// The process-wide fixed arena: `ARENA_SIZE` bytes whose committed offset is shared by
/// every thread. A request reads the offset and computes, with `bump_commit`, where it would
/// be served and the offset that follows; it hands exactly that offset to one
/// compare-and-swap from the value it read, and where another thread committed first, it
/// computes again from the value found. Each commit is therefore a step of `bump` from the
/// value it replaces (see `law_commits_disjoint`); that steps of different threads do not
/// interleave inside one compare-and-swap is std's atomicity, which no contract here states.
/// Releases are no-ops, and the arena lives as long as the process.
#[derive(Debug)]
pub struct SimpleAlloc {
    offset: AtomicUsize,
}

impl SimpleAlloc {
    /// An arena with nothing committed.
    pub fn new() -> (r: SimpleAlloc) {
        SimpleAlloc { offset: AtomicUsize::new(0) }
    }

    /// Bytes committed so far, as last seen.
    pub fn offset(&self) -> usize {
        self.offset.load(Ordering::Acquire)
    }

    /// Serves `(size, align)`: the start of the region committed for it, or `None` where it
    /// cannot be served. The start is where `bump` places the request at the offset that the
    /// commit replaced; a request that cannot fit even in an empty arena, or with an
    /// alignment that is not a power of two, is always refused.
    pub fn allocate(&self, size: usize, align: usize) -> (r: Option<usize>)
        ensures
            r matches Some(s) ==> exists|o: int|
                0 <= o <= ARENA_SIZE && #[trigger] bump(o, ARENA_SIZE as int, size as int, align as int)
                    == Ok::<int, AllocError>(s as int),
            r matches Some(s) ==> s % align == 0 && s + size <= ARENA_SIZE,
            !is_pow2(align as nat) ==> r is None,
            size > ARENA_SIZE ==> r is None,
    {
        let mut cur: usize = self.offset.load(Ordering::Acquire);
        loop
            decreases usize::MAX - cur,
        {
            if cur > ARENA_SIZE {
                return None;
            }
            match bump_commit(cur, ARENA_SIZE, size, align) {
                Err(_) => return None,
                Ok((start, end)) => {
                    proof {
                        lemma_bump_in_bounds(
                            cur as int,
                            ARENA_SIZE as int,
                            size as int,
                            align as int,
                        );
                    }
                    match compare_and_commit(&self.offset, cur, end) {
                        Ok(_) => return Some(start),
                        Err(actual) => {
                            if actual <= cur {
                                return None;
                            }
                            cur = actual;
                        },
                    }
                },
            }
        }
    }

    /// Releases nothing: the arena never reuses memory.
    pub fn deallocate(&self, start: usize, size: usize, align: usize) {
    }
}

/// What a growable process-wide arena answers to a request.
#[derive(Clone, Copy, Debug, PartialEq, Eq, Structural)]
pub enum Claim {
    /// The region starting here is committed to the request.
    At(usize),
    /// The heap must first be extended by this many bytes; then ask again.
    Grow(usize),
}

/// The process-wide growable arena: its capacity is extended from the environment's heap in
/// whole pages and never shrinks, and its committed offset is shared by every thread. A
/// request computes with `bump_commit`, against a capacity read after the offset, where it
/// would be served and the offset that follows, and hands exactly that offset to one
/// compare-and-swap from the value it read. Growth is recorded by a compare-and-swap to
/// `grown_capacity` of the value read, so the capacity only grows.
#[derive(Debug)]
pub struct SbrkAlloc {
    offset: AtomicUsize,
    size: AtomicUsize,
}

impl SbrkAlloc {
    /// An arena with no capacity and nothing committed.
    pub fn new() -> (r: SbrkAlloc) {
        SbrkAlloc { offset: AtomicUsize::new(0), size: AtomicUsize::new(0) }
    }

    /// Bytes committed so far, as last seen.
    pub fn offset(&self) -> usize {
        self.offset.load(Ordering::Acquire)
    }

    /// Bytes obtained from the environment so far, as last seen.
    pub fn capacity(&self) -> usize {
        self.size.load(Ordering::Acquire)
    }

    /// Serves `(size, align)` where it fits in the capacity; otherwise says by how much the
    /// heap must first grow (`growth_for` at the offset and capacity read).
    pub fn allocate(&self, size: usize, align: usize) -> (r: Result<Claim, AllocError>)
        ensures
            r matches Ok(Claim::At(s)) ==> exists|o: int, c: int|
                0 <= o <= c <= usize::MAX && #[trigger] bump(o, c, size as int, align as int)
                    == Ok::<int, AllocError>(s as int),
            r matches Ok(Claim::Grow(d)) ==> d > 0 && exists|o: int, c: int|
                0 <= o <= c <= usize::MAX && #[trigger] growth_for(o, c, size as int, align as int)
                    == Ok::<int, AllocError>(d as int),
            !is_pow2(align as nat) <==> r == Err::<Claim, AllocError>(AllocError::InvalidRequest),
    {
        let mut cur: usize = self.offset.load(Ordering::Acquire);
        loop
            decreases usize::MAX - cur,
        {
            let cap: usize = self.size.load(Ordering::Acquire);
            if !crate::align::is_valid_align(align) {
                return Err(AllocError::InvalidRequest);
            }
            if cur > cap {
                return Err(AllocError::CapacityExhausted);
            }
            match bump_commit(cur, cap, size, align) {
                Ok((start, end)) => {
                    proof {
                        lemma_bump_in_bounds(
                            cur as int,
                            cap as int,
                            size as int,
                            align as int,
                        );
                    }
                    match compare_and_commit(&self.offset, cur, end) {
                        Ok(_) => {
                            assert(bump(cur as int, cap as int, size as int, align as int) == Ok::<
                                int,
                                AllocError,
                            >(start as int));
                            return Ok(Claim::At(start));
                        },
                        Err(actual) => {
                            if actual <= cur {
                                return Err(AllocError::CapacityExhausted);
                            }
                            cur = actual;
                        },
                    }
                },
                Err(_) => {
                    return match growth_step(cur, cap, size, align) {
                        Ok(d) => {
                            assert(growth_for(cur as int, cap as int, size as int, align as int)
                                == Ok::<int, AllocError>(d as int));
                            proof {
                                if d == 0 {
                                    law_no_growth_when_fits(
                                        cur as int,
                                        cap as int,
                                        size as int,
                                        align as int,
                                    );
                                }
                            }
                            Ok(Claim::Grow(d))
                        },
                        Err(e) => Err(e),
                    };
                },
            }
        }
    }

    /// Records that the environment extended the heap, contiguously, by `delta` bytes.
    /// `CapacityExhausted` where the capacity would no longer fit in a `usize`.
    pub fn increase_heap_size(&self, delta: usize) -> (r: Result<(), AllocError>)
        ensures
            r matches Err(e) ==> e == AllocError::CapacityExhausted,
    {
        let mut cur: usize = self.size.load(Ordering::Acquire);
        loop
            decreases usize::MAX - cur,
        {
            let grown: usize = match grown_capacity(cur, delta) {
                Some(n) => n,
                None => return Err(AllocError::CapacityExhausted),
            };
            match compare_and_commit(&self.size, cur, grown) {
                Ok(_) => return Ok(()),
                Err(actual) => {
                    if actual <= cur {
                        return Err(AllocError::CapacityExhausted);
                    }
                    cur = actual;
                },
            }
        }
    }

    /// Releases nothing: the arena never reuses memory.
    pub fn deallocate(&self, start: usize, size: usize, align: usize) {
    }
}

/// `offsets` is the history of a shared offset under compare-and-swap commits: the `i`-th
/// commit served request `reqs[i]` at `bump` of `offsets[i]` and replaced that offset by the
/// region's end, `offsets[i + 1]`.
pub open spec fn is_commit_chain(capacity: int, offsets: Seq<int>, reqs: Seq<(int, int)>) -> bool {
    &&& offsets.len() == reqs.len() + 1
    &&& offsets[0] >= 0
    &&& forall|i: int| 0 <= i < reqs.len() ==> reqs[i].0 >= 0 && reqs[i].1 >= 0
    &&& forall|i: int|
        0 <= i < reqs.len() ==> (#[trigger] bump(offsets[i], capacity, reqs[i].0, reqs[i].1)
            matches Ok(s) && offsets[i + 1] == s + reqs[i].0)
}

/// However the threads interleave, the commits that succeed form a chain of offsets: the
/// regions they commit are pairwise disjoint and aligned, and where every request asks for
/// at least one byte, no offset is ever committed by two requests.
pub proof fn law_commits_disjoint(capacity: int, offsets: Seq<int>, reqs: Seq<(int, int)>)
    requires
        is_commit_chain(capacity, offsets, reqs),
    ensures
        forall|i: int|
            0 <= i < reqs.len() ==> (#[trigger] bump(offsets[i], capacity, reqs[i].0, reqs[i].1)
                matches Ok(s) ==> s % reqs[i].1 == 0 && offsets[i] <= s && s + reqs[i].0 <= capacity),
        forall|i: int, j: int|
            0 <= i < j < reqs.len() ==> (#[trigger] bump(offsets[i], capacity, reqs[i].0, reqs[i].1)
                matches Ok(si) ==> (#[trigger] bump(offsets[j], capacity, reqs[j].0, reqs[j].1)
                matches Ok(sj) ==> si + reqs[i].0 <= sj)),
        (forall|i: int| 0 <= i < reqs.len() ==> #[trigger] reqs[i].0 > 0) ==> forall|i: int, j: int|
            0 <= i < j < offsets.len() ==> #[trigger] offsets[i] < #[trigger] offsets[j],
{
    assert forall|i: int| 0 <= i < reqs.len() implies offsets[i] >= 0 && (#[trigger] bump(
        offsets[i],
        capacity,
        reqs[i].0,
        reqs[i].1,
    ) matches Ok(s) ==> s % reqs[i].1 == 0 && offsets[i] <= s && s + reqs[i].0 <= capacity
        && offsets[i + 1] == s + reqs[i].0) by {
        lemma_chain_prefix_nonneg(capacity, offsets, reqs, i);
        lemma_bump_in_bounds(offsets[i], capacity, reqs[i].0, reqs[i].1);
    }
    assert forall|i: int, j: int| 0 <= i <= j < offsets.len() implies offsets[i] <= offsets[j] by {
        lemma_chain_monotone(capacity, offsets, reqs, i, j);
    }
    assert forall|i: int, j: int|
        0 <= i < j < reqs.len() implies (#[trigger] bump(offsets[i], capacity, reqs[i].0, reqs[i].1)
        matches Ok(si) ==> (#[trigger] bump(offsets[j], capacity, reqs[j].0, reqs[j].1)
        matches Ok(sj) ==> si + reqs[i].0 <= sj)) by {
        assert(offsets[i + 1] <= offsets[j]);
    }
    if forall|i: int| 0 <= i < reqs.len() ==> #[trigger] reqs[i].0 > 0 {
        assert forall|i: int, j: int| 0 <= i < j < offsets.len() implies #[trigger] offsets[i]
            < #[trigger] offsets[j] by {
            assert(reqs[i].0 > 0);
            lemma_chain_monotone(capacity, offsets, reqs, i, j);
        }
    }
}

proof fn lemma_chain_prefix_nonneg(capacity: int, offsets: Seq<int>, reqs: Seq<(int, int)>, k: int)
    requires
        is_commit_chain(capacity, offsets, reqs),
        0 <= k < offsets.len(),
    ensures
        offsets[k] >= 0,
    decreases k,
{
    if k > 0 {
        lemma_chain_prefix_nonneg(capacity, offsets, reqs, k - 1);
        lemma_bump_in_bounds(offsets[k - 1], capacity, reqs[k - 1].0, reqs[k - 1].1);
        assert(bump(offsets[k - 1], capacity, reqs[k - 1].0, reqs[k - 1].1) is Ok);
    }
}

proof fn lemma_chain_monotone(
    capacity: int,
    offsets: Seq<int>,
    reqs: Seq<(int, int)>,
    i: int,
    j: int,
)
    requires
        is_commit_chain(capacity, offsets, reqs),
        0 <= i <= j < offsets.len(),
    ensures
        offsets[i] <= offsets[j],
        i < j ==> offsets[i] + reqs[i].0 <= offsets[j],
    decreases j - i,
{
    if i < j {
        lemma_chain_prefix_nonneg(capacity, offsets, reqs, i);
        lemma_bump_in_bounds(offsets[i], capacity, reqs[i].0, reqs[i].1);
        assert(bump(offsets[i], capacity, reqs[i].0, reqs[i].1) is Ok);
        lemma_chain_monotone(capacity, offsets, reqs, i + 1, j);
    }
}

} // verus!
