//! Tests for the dual-ended early allocator.

use bump_allocator::early::AllocError;
use bump_allocator::early::EarlyAllocator;

const PAGE: usize = 0x1000;

#[test]
fn new_is_zeroed() {
    let a = EarlyAllocator::<PAGE>::new();
    assert_eq!(a.total_bytes(), 0);
    assert_eq!(a.used_bytes(), 0);
    assert_eq!(a.available_bytes(), 0);
    assert_eq!(a.total_pages(), 0);
    assert_eq!(a.used_pages(), 0);
    assert_eq!(a.available_pages(), 0);
}

#[test]
fn boot_scenario() {
    // Four pages starting at 0x1000.
    let mut a = EarlyAllocator::<PAGE>::new();
    a.init(0x1000, 0x4000);
    assert_eq!(a.total_bytes(), 0x4000);
    assert_eq!(a.total_pages(), 4);
    assert_eq!(a.available_pages(), 4);

    // A 16-byte allocation aligned to 8 returns the aligned block start.
    let r = a.allocate(16, 8);
    assert_eq!(r, Ok(0x1000));
    assert_eq!(a.used_bytes(), 16);
    // The byte zone now overlaps the first page, so only 3 whole pages fit.
    assert_eq!(a.available_pages(), 3);

    // Pages come from the top of the region, moving downward.
    assert_eq!(a.allocate_pages(1, PAGE), Ok(0x4000));
    assert_eq!(a.used_pages(), 1);
    assert_eq!(a.available_pages(), 2);
    assert_eq!(a.allocate_pages(1, PAGE), Ok(0x3000));
    assert_eq!(a.allocate_pages(1, PAGE), Ok(0x2000));
    // The next page would dip into the byte zone.
    assert_eq!(a.allocate_pages(1, PAGE), Err(AllocError::NoMemory));
    assert_eq!(a.used_pages(), 3);
}

#[test]
fn byte_allocation_rounds_up_to_alignment() {
    let mut a = EarlyAllocator::<PAGE>::new();
    a.init(0x1000, 0x1000);
    assert_eq!(a.allocate(1, 1), Ok(0x1000));
    // byte_ptr is now 0x1001; an 8-aligned request must skip to 0x1008.
    assert_eq!(a.allocate(4, 8), Ok(0x1008));
    assert_eq!(a.used_bytes(), 0xc);
}

#[test]
fn no_overlap_boundary() {
    let mut a = EarlyAllocator::<PAGE>::new();
    a.init(0x1000, 0x20);
    assert_eq!(a.allocate(0x10, 1), Ok(0x1000));
    // 0x20 more bytes would pass page_ptr: the request fails and nothing
    // changes.
    assert_eq!(a.allocate(0x20, 1), Err(AllocError::NoMemory));
    assert_eq!(a.used_bytes(), 0x10);
    assert_eq!(a.available_bytes(), 0x10);
    // The gap itself is still allocatable.
    assert_eq!(a.allocate(0x10, 1), Ok(0x1010));
    assert_eq!(a.available_bytes(), 0);
}

#[test]
fn bulk_reclamation() {
    let mut a = EarlyAllocator::<PAGE>::new();
    a.init(0x1000, 0x1000);
    let r1 = a.allocate(8, 1).unwrap();
    let r2 = a.allocate(8, 1).unwrap();
    let r3 = a.allocate(8, 1).unwrap();
    assert_eq!((r1, r2, r3), (0x1000, 0x1008, 0x1010));
    assert_eq!(a.used_bytes(), 24);

    // Three deallocations, in an arbitrary order; address and layout are
    // ignored.
    a.deallocate(r2, 8, 1);
    a.deallocate(r1, 8, 1);
    assert_eq!(a.used_bytes(), 24);
    a.deallocate(r3, 8, 1);
    assert_eq!(a.used_bytes(), 0);

    // The allocator now hands out the same addresses as a fresh one.
    assert_eq!(a.allocate(8, 1), Ok(0x1000));
}

#[test]
fn page_monotonicity() {
    let mut a = EarlyAllocator::<PAGE>::new();
    a.init(0, 0x8000);
    // Successful allocations of 2, 1 and 3 pages leave page_ptr exactly
    // PAGE * (2 + 1 + 3) below the end of the region.
    assert_eq!(a.allocate_pages(2, PAGE), Ok(0x6000));
    assert_eq!(a.allocate_pages(1, PAGE), Ok(0x5000));
    assert_eq!(a.allocate_pages(3, PAGE), Ok(0x2000));
    assert_eq!(a.used_pages(), 6);
    assert_eq!(a.available_pages(), 2);
    // Three more pages would cross byte_ptr.
    assert_eq!(a.allocate_pages(3, PAGE), Err(AllocError::NoMemory));
    assert_eq!(a.used_pages(), 6);
    // A zero-page request is refused rather than treated as a success.
    assert_eq!(a.allocate_pages(0, PAGE), Err(AllocError::NoMemory));
    // The remaining two pages still fit.
    assert_eq!(a.allocate_pages(2, PAGE), Ok(0));
}

#[test]
fn reinitialization_replaces_state() {
    let mut a = EarlyAllocator::<PAGE>::new();
    a.init(0x1000, 0x1000);
    assert_eq!(a.allocate(8, 1), Ok(0x1000));
    a.init(0x8000, 0x2000);
    assert_eq!(a.used_bytes(), 0);
    assert_eq!(a.total_bytes(), 0x2000);
    assert_eq!(a.allocate(8, 1), Ok(0x8000));
}

#[test]
fn top_of_address_space() {
    // A region that ends exactly at usize::MAX.
    let mut a = EarlyAllocator::<PAGE>::new();
    a.init(usize::MAX - 0xf, 0xf);
    assert_eq!(a.allocate(0xf, 1), Ok(usize::MAX - 0xf));
    assert_eq!(a.used_bytes(), 0xf);
    // byte_ptr now sits at usize::MAX: even a zero-byte request is refused
    // rather than computed at the very edge of the address space.
    assert_eq!(a.allocate(0, 1), Err(AllocError::NoMemory));
    assert_eq!(a.used_bytes(), 0xf);
}

#[test]
fn oversized_byte_request_fails() {
    let mut a = EarlyAllocator::<PAGE>::new();
    a.init(0x1000, 0x100);
    assert_eq!(a.allocate(0x101, 1), Err(AllocError::NoMemory));
    assert_eq!(a.allocate(0x100, 1), Ok(0x1000));
}
