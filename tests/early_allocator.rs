use bump_allocator::{AllocError, EarlyAllocator, MAX_REGIONS};

type Alloc = EarlyAllocator<0x1000>;

#[test]
fn init_sets_counters() {
    let mut a = Alloc::new();
    a.init(0x8000, 0x3000);
    assert_eq!(a.total_bytes(), 0x3000);
    assert_eq!(a.used_bytes(), 0);
    assert_eq!(a.available_bytes(), 0x3000);
}

#[test]
fn new_is_empty() {
    let mut a = Alloc::new();
    assert_eq!(a.total_bytes(), 0);
    assert_eq!(a.used_bytes(), 0);
    assert_eq!(a.alloc_bytes(1, 1), Err(AllocError::OutOfMemory));
}

#[test]
fn init_discards_added_regions() {
    let mut a = Alloc::new();
    a.init(0x1000, 0x100);
    assert_eq!(a.add_memory(0x2000, 0x100), Ok(()));
    assert_eq!(a.alloc_bytes(0x10, 1), Ok(0x1000));
    a.init(0x5000, 0x40);
    assert_eq!(a.total_bytes(), 0x40);
    assert_eq!(a.used_bytes(), 0);
    assert_eq!(a.alloc_bytes(0x40, 1), Ok(0x5000));
    assert_eq!(a.alloc_bytes(1, 1), Err(AllocError::OutOfMemory));
}

#[test]
fn boundary_exhaustion() {
    let mut a = Alloc::new();
    a.init(0x1000, 0x100);
    assert_eq!(a.alloc_bytes(0x10, 0x10), Ok(0x1000));
    assert_eq!(a.used_bytes(), 0x10);
    // 0x1010 is already aligned, so exactly 0xF0 bytes remain and fit.
    assert_eq!(a.alloc_bytes(0xF0, 0x10), Ok(0x1010));
    assert_eq!(a.used_bytes(), 0x100);
    assert_eq!(a.available_bytes(), 0);
    assert_eq!(a.alloc_bytes(1, 1), Err(AllocError::OutOfMemory));
}

#[test]
fn padding_can_exhaust_a_region() {
    let mut a = Alloc::new();
    a.init(0x1000, 0x100);
    assert_eq!(a.alloc_bytes(0x8, 1), Ok(0x1000));
    // Rounding 0x1008 up to 0x1010 leaves 0xF0 bytes, short of 0xF8.
    assert_eq!(a.available_bytes(), 0xF8);
    assert_eq!(a.alloc_bytes(0xF8, 0x10), Err(AllocError::OutOfMemory));
    assert_eq!(a.used_bytes(), 0x8);
}

#[test]
fn second_region_serves_after_first_is_exhausted() {
    let mut a = Alloc::new();
    a.init(0x1000, 0x20);
    assert_eq!(a.add_memory(0x2000, 0x100), Ok(()));
    assert_eq!(a.total_bytes(), 0x120);
    assert_eq!(a.alloc_bytes(0x20, 1), Ok(0x1000));
    assert_eq!(a.alloc_bytes(0x10, 1), Ok(0x2000));
    assert_eq!(a.alloc_bytes(0x10, 1), Ok(0x2010));
    assert_eq!(a.used_bytes(), 0x40);
}

#[test]
fn search_wraps_around_from_hint() {
    let mut a = Alloc::new();
    a.init(0x1000, 0x100);
    assert_eq!(a.add_memory(0x2000, 0x100), Ok(()));
    assert_eq!(a.alloc_bytes(0x80, 1), Ok(0x1000));
    // Slot 0 has only 0x80 left: served from slot 1, which fills it.
    assert_eq!(a.alloc_bytes(0x100, 1), Ok(0x2000));
    // The search starts at slot 1, finds it full and wraps to slot 0.
    assert_eq!(a.alloc_bytes(0x10, 1), Ok(0x1080));
}

#[test]
fn allocations_are_aligned_and_disjoint() {
    let mut a = Alloc::new();
    a.init(0x1001, 0x1000);
    let reqs: [(usize, usize); 5] = [(3, 1), (0x10, 0x10), (7, 8), (0x40, 0x40), (1, 0x100)];
    let mut blocks: Vec<(usize, usize)> = Vec::new();
    for &(size, align) in reqs.iter() {
        let p = a.alloc_bytes(size, align).unwrap();
        assert_eq!(p % align, 0);
        blocks.push((p, size));
    }
    assert_eq!(blocks[0].0, 0x1001);
    assert_eq!(blocks[1].0, 0x1010);
    assert_eq!(blocks[2].0, 0x1020);
    assert_eq!(blocks[3].0, 0x1040);
    assert_eq!(blocks[4].0, 0x1100);
    for i in 0..blocks.len() {
        for j in (i + 1)..blocks.len() {
            assert!(blocks[i].0 + blocks[i].1 <= blocks[j].0);
        }
    }
}

#[test]
fn used_counts_requested_sizes_only() {
    let mut a = Alloc::new();
    a.init(0x1001, 0x1000);
    assert_eq!(a.alloc_bytes(3, 1), Ok(0x1001));
    assert_eq!(a.alloc_bytes(5, 0x10), Ok(0x1010));
    assert_eq!(a.alloc_bytes(2, 0x100), Ok(0x1100));
    assert_eq!(a.used_bytes(), 10);
    assert_eq!(a.available_bytes(), 0x1000 - 10);
}

#[test]
fn oversized_request_fails_without_change() {
    let mut a = Alloc::new();
    a.init(0x1000, 0x100);
    assert_eq!(a.alloc_bytes(0x10, 1), Ok(0x1000));
    assert_eq!(a.alloc_bytes(0xF1, 1), Err(AllocError::OutOfMemory));
    assert_eq!(a.used_bytes(), 0x10);
    assert_eq!(a.available_bytes(), 0xF0);
    assert_eq!(a.alloc_bytes(0xF0, 1), Ok(0x1010));
}

#[test]
fn add_memory_fills_the_table() {
    let mut a = Alloc::new();
    let mut total: usize = 0;
    for k in 0..MAX_REGIONS {
        let size = 0x100 + k;
        assert_eq!(a.add_memory(0x10000 * (k + 1), size), Ok(()));
        total += size;
        assert_eq!(a.total_bytes(), total);
    }
    assert_eq!(a.add_memory(0x1000_0000, 0x100), Err(AllocError::OutOfCapacity));
    assert_eq!(a.total_bytes(), total);
}

#[test]
fn add_memory_after_init_has_capacity_minus_one() {
    let mut a = Alloc::new();
    a.init(0x1000, 0x10);
    for k in 1..MAX_REGIONS {
        assert_eq!(a.add_memory(0x10000 * k, 0x10), Ok(()));
    }
    assert_eq!(a.add_memory(0x1000_0000, 0x10), Err(AllocError::OutOfCapacity));
    assert_eq!(a.total_bytes(), 0x10 * MAX_REGIONS);
}

#[test]
fn alloc_pages_aligned_and_counted() {
    let mut a = Alloc::new();
    a.init(0x10800, 0x10000);
    assert_eq!(a.alloc_pages(2, 12), Ok(0x11000));
    assert_eq!(a.used_bytes(), 0x2000);
    assert_eq!(a.alloc_pages(1, 14), Ok(0x14000));
    assert_eq!(a.used_bytes(), 0x3000);
    assert_eq!(a.used_pages(), 3);
}

#[test]
fn page_counters() {
    let mut a = Alloc::new();
    a.init(0x10000, 0x5800);
    assert_eq!(a.total_pages(), 5);
    assert_eq!(a.used_pages(), 0);
    assert_eq!(a.available_pages(), 5);
    assert_eq!(a.alloc_pages(2, 12), Ok(0x10000));
    assert_eq!(a.used_pages(), 2);
    assert_eq!(a.available_pages(), 3);
}

#[test]
fn alloc_pages_unservable_requests_fail() {
    let mut a = Alloc::new();
    a.init(0x10000, 0x10000);
    assert_eq!(a.alloc_pages(0x11, 12), Err(AllocError::OutOfMemory));
    assert_eq!(a.alloc_pages(usize::MAX, 0), Err(AllocError::OutOfMemory));
    assert_eq!(a.alloc_pages(1, usize::BITS as usize), Err(AllocError::OutOfMemory));
    assert_eq!(a.alloc_pages(1, 200), Err(AllocError::OutOfMemory));
    assert_eq!(a.used_bytes(), 0);
    assert_eq!(a.alloc_pages(0x10, 12), Ok(0x10000));
}

#[test]
fn dealloc_changes_nothing() {
    let mut a = Alloc::new();
    a.init(0x1000, 0x3000);
    let p = a.alloc_bytes(0x20, 8).unwrap();
    let q = a.alloc_pages(1, 12).unwrap();
    let (t, u, v) = (a.total_bytes(), a.used_bytes(), a.available_bytes());
    a.dealloc(p, 0x20, 8);
    a.dealloc_pages(q, 1);
    assert_eq!((a.total_bytes(), a.used_bytes(), a.available_bytes()), (t, u, v));
    assert_eq!(a.alloc_bytes(0x8, 8), Ok(0x3000));
}

#[test]
fn null_address_is_never_returned() {
    let mut a = Alloc::new();
    a.init(0, 0x100);
    assert_eq!(a.alloc_bytes(0x10, 1), Err(AllocError::OutOfMemory));
    assert_eq!(a.add_memory(0x4000, 0x100), Ok(()));
    assert_eq!(a.alloc_bytes(0x10, 1), Ok(0x4000));
}
