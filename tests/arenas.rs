use bump_arena::{
    bump_commit, grown_capacity, align_up, checked_align_up, growth_step, is_valid_align, AllocError, ArenaAllocator, Backing,
    BumpAllocator, Claim, Region, SbrkAlloc, SbrkAllocator, SimpleAlloc, VerboseAllocator,
    ARENA_SIZE, PAGE_SIZE,
};

#[test]
fn align_up_rounds_to_next_multiple() {
    assert_eq!(align_up(0, 8), 0);
    assert_eq!(align_up(1, 8), 8);
    assert_eq!(align_up(8, 8), 8);
    assert_eq!(align_up(9, 8), 16);
    assert_eq!(align_up(13, 1), 13);
    assert_eq!(align_up(4097, 4096), 8192);
}

#[test]
fn checked_align_up_reports_overflow() {
    assert_eq!(checked_align_up(usize::MAX, 1), Some(usize::MAX));
    assert_eq!(checked_align_up(usize::MAX, 2), None);
    assert_eq!(checked_align_up(usize::MAX - 7, 8), Some(usize::MAX - 7));
    assert_eq!(checked_align_up(usize::MAX - 8, 8), Some(usize::MAX - 7));
    assert_eq!(checked_align_up(usize::MAX - 6, 8), None);
}

#[test]
fn valid_alignments_are_powers_of_two() {
    assert!(is_valid_align(1));
    assert!(is_valid_align(2));
    assert!(is_valid_align(4096));
    assert!(!is_valid_align(0));
    assert!(!is_valid_align(3));
    assert!(!is_valid_align(12));
}

#[test]
fn fixed_arena_capacity_sixteen_scenario() {
    let mut a = ArenaAllocator::with_capacity(16);
    assert_eq!(a.allocate(10, 1), Ok(Region { start: 0, size: 10 }));
    assert_eq!(a.allocate(10, 1), Err(AllocError::CapacityExhausted));
    assert_eq!(a.offset(), 10);
    assert_eq!(a.allocate(4, 1), Ok(Region { start: 10, size: 4 }));
    assert_eq!(a.offset(), 14);
}

#[test]
fn oversized_request_on_empty_arena_fails() {
    for c in [0usize, 1, 16, 1024] {
        let mut a = ArenaAllocator::with_capacity(c);
        assert_eq!(a.allocate(c + 1, 1), Err(AllocError::CapacityExhausted));
        assert_eq!(a.offset(), 0);
    }
}

#[test]
fn fixed_arena_aligns_starts() {
    let mut a = ArenaAllocator::from_ptr(64);
    assert_eq!(a.allocate(3, 1), Ok(Region { start: 0, size: 3 }));
    assert_eq!(a.allocate(4, 8), Ok(Region { start: 8, size: 4 }));
    assert_eq!(a.allocate(1, 16), Ok(Region { start: 16, size: 1 }));
    assert_eq!(a.offset(), 17);
}

#[test]
fn fixed_arena_rejects_bad_alignment() {
    let mut a = ArenaAllocator::with_capacity(64);
    assert_eq!(a.allocate(4, 3), Err(AllocError::InvalidRequest));
    assert_eq!(a.allocate(4, 0), Err(AllocError::InvalidRequest));
    assert_eq!(a.offset(), 0);
}

#[test]
fn zero_sized_request_succeeds() {
    let mut a = ArenaAllocator::with_capacity(0);
    assert_eq!(a.allocate(0, 1), Ok(Region { start: 0, size: 0 }));
}

#[test]
fn regions_are_disjoint_and_aligned() {
    let mut a = ArenaAllocator::with_capacity(1000);
    let reqs = [(5usize, 1usize), (7, 4), (1, 64), (30, 8), (2, 2), (100, 16), (900, 1), (3, 32)];
    let mut got: Vec<(Region, usize)> = Vec::new();
    for (size, align) in reqs {
        if let Ok(r) = a.allocate(size, align) {
            assert_eq!(r.start % align, 0);
            assert!(r.start + r.size <= 1000);
            got.push((r, align));
        }
    }
    assert_eq!(got.len(), 7);
    for i in 0..got.len() {
        for j in (i + 1)..got.len() {
            assert!(got[i].0.start + got[i].0.size <= got[j].0.start);
        }
    }
}

#[test]
fn offset_never_decreases() {
    let mut a = ArenaAllocator::with_capacity(100);
    let mut last = a.offset();
    for (size, align) in [(10usize, 1usize), (200, 1), (5, 8), (0, 3), (50, 32), (1, 1)] {
        let _ = a.allocate(size, align);
        assert!(a.offset() >= last);
        last = a.offset();
    }
}

#[test]
fn release_then_request_gives_new_address() {
    let mut a = ArenaAllocator::with_capacity(64);
    let r = a.allocate(8, 1).unwrap();
    a.deallocate(r, 1);
    assert_eq!(a.offset(), 8);
    let r2 = a.allocate(8, 1).unwrap();
    assert_ne!(r2.start, r.start);
    assert!(r2.start >= r.start + r.size);
}

#[test]
fn duplicate_owned_is_fresh() {
    let mut a = ArenaAllocator::with_capacity(32);
    a.allocate(20, 1).unwrap();
    let d = a.duplicate().unwrap();
    assert_eq!(d.capacity(), 32);
    assert_eq!(d.offset(), 0);
    assert_eq!(d.backing(), Backing::Owned);
    assert_eq!(a.offset(), 20);
}

#[test]
fn duplicate_borrowed_is_refused() {
    let a = ArenaAllocator::from_ptr(32);
    assert_eq!(a.backing(), Backing::Borrowed);
    assert!(a.duplicate().is_none());
}

#[test]
fn growable_first_page_scenario() {
    let mut g = SbrkAllocator::new();
    assert_eq!(g.capacity(), 0);
    let d = g.growth_needed(1, 1).unwrap();
    assert_eq!(d, 4096);
    g.increase_heap_size(d).unwrap();
    assert_eq!(g.allocate(1, 1), Ok(Region { start: 0, size: 1 }));
    for _ in 0..4095 {
        assert_eq!(g.growth_needed(1, 1), Ok(0));
        g.allocate(1, 1).unwrap();
    }
    assert_eq!(g.offset(), 4096);
    assert_eq!(g.capacity(), 4096);
    assert_eq!(g.growth_needed(1, 1), Ok(4096));
}

#[test]
fn growable_grows_once_by_whole_pages() {
    let mut g = SbrkAllocator::new();
    g.increase_heap_size(4096).unwrap();
    g.allocate(4000, 1).unwrap();
    let d = g.growth_needed(5000, 8).unwrap();
    // start 4000, end 9000, shortfall 4904, two pages
    assert_eq!(d, 8192);
    g.increase_heap_size(d).unwrap();
    assert_eq!(g.growth_needed(5000, 8), Ok(0));
    assert_eq!(g.allocate(5000, 8), Ok(Region { start: 4000, size: 5000 }));
    assert_eq!(g.capacity(), 12288);
}

#[test]
fn growable_rejects_overflowing_growth() {
    let mut g = SbrkAllocator::new();
    assert_eq!(g.growth_needed(usize::MAX, 1), Err(AllocError::CapacityExhausted));
    assert_eq!(g.growth_needed(8, 6), Err(AllocError::InvalidRequest));
    g.increase_heap_size(usize::MAX).unwrap();
    assert_eq!(g.increase_heap_size(1), Err(AllocError::CapacityExhausted));
    assert_eq!(g.capacity(), usize::MAX);
}

#[test]
fn growth_step_values() {
    assert_eq!(growth_step(0, 0, 1, 1), Ok(PAGE_SIZE));
    assert_eq!(growth_step(0, 0, 4097, 1), Ok(8192));
    assert_eq!(growth_step(10, 4096, 100, 1), Ok(0));
    assert_eq!(growth_step(4095, 4096, 2, 1), Ok(4096));
    assert_eq!(growth_step(1, 4096, 4096, 4096), Ok(4096));
}

#[test]
fn verbose_counts_events() {
    let mut v = VerboseAllocator::new(ArenaAllocator::with_capacity(16));
    assert_eq!(v.allocate(10, 1), Ok(Region { start: 0, size: 10 }));
    assert_eq!(v.allocate(10, 1), Err(AllocError::CapacityExhausted));
    v.deallocate(Region { start: 0, size: 10 }, 1);
    assert_eq!(v.allocations(), 1);
    assert_eq!(v.failures(), 1);
    assert_eq!(v.deallocations(), 1);
    assert_eq!(v.inner().offset(), 10);
}

#[test]
fn simple_alloc_serves_disjoint_regions() {
    let a = SimpleAlloc::new();
    let mut starts = Vec::new();
    for _ in 0..4 {
        for _ in 0..8 {
            starts.push(a.allocate(24, 8).unwrap());
        }
    }
    for (i, s) in starts.iter().enumerate() {
        assert_eq!(*s, i * 24);
    }
    assert_eq!(a.offset(), 32 * 24);
    a.deallocate(0, 24, 8);
    assert_eq!(a.allocate(24, 8), Some(32 * 24));
}

#[test]
fn simple_alloc_refuses() {
    let a = SimpleAlloc::new();
    assert_eq!(a.allocate(ARENA_SIZE + 1, 1), None);
    assert_eq!(a.allocate(1, 3), None);
    assert_eq!(a.allocate(ARENA_SIZE, 1), Some(0));
    assert_eq!(a.allocate(1, 1), None);
}

#[test]
fn sbrk_alloc_asks_for_growth_then_serves() {
    let a = SbrkAlloc::new();
    assert_eq!(a.allocate(1, 1), Ok(Claim::Grow(4096)));
    a.increase_heap_size(4096).unwrap();
    assert_eq!(a.capacity(), 4096);
    assert_eq!(a.allocate(1, 1), Ok(Claim::At(0)));
    assert_eq!(a.allocate(10, 8), Ok(Claim::At(8)));
    assert_eq!(a.offset(), 18);
    assert_eq!(a.allocate(1, 5), Err(AllocError::InvalidRequest));
    a.deallocate(8, 10, 8);
    assert_eq!(a.allocate(4100, 1), Ok(Claim::Grow(4096)));
}

#[test]
fn bump_commit_gives_start_and_new_offset() {
    assert_eq!(bump_commit(0, 16, 10, 1), Ok((0, 10)));
    assert_eq!(bump_commit(10, 16, 10, 1), Err(AllocError::CapacityExhausted));
    assert_eq!(bump_commit(10, 16, 4, 1), Ok((10, 14)));
    assert_eq!(bump_commit(3, 64, 5, 8), Ok((8, 13)));
    assert_eq!(bump_commit(3, 64, 0, 16), Ok((16, 16)));
    assert_eq!(bump_commit(0, 64, 1, 6), Err(AllocError::InvalidRequest));
}

#[test]
fn grown_capacity_adds_or_refuses() {
    assert_eq!(grown_capacity(0, 4096), Some(4096));
    assert_eq!(grown_capacity(4096, 8192), Some(12288));
    assert_eq!(grown_capacity(usize::MAX, 0), Some(usize::MAX));
    assert_eq!(grown_capacity(usize::MAX - 10, 11), None);
}
