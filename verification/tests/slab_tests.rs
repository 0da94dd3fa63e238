use g16core::slab::FakeSlabAllocator;

#[test]
fn test_max_allocated_tracking() {
    let mut allocator = FakeSlabAllocator::new();

    // Allocate 5 indices
    let indices: Vec<usize> = (0..5).map(|_| allocator.allocate()).collect();

    // Max should be 5
    assert_eq!(allocator.max_allocated_concurrently(), 5);
    assert_eq!(allocator.allocated_count(), 5);

    // Deallocate 2 indices
    allocator.deallocate(indices[1]);
    allocator.deallocate(indices[3]);

    // Current is 3, but max remains 5
    assert_eq!(allocator.allocated_count(), 3);
    assert_eq!(allocator.max_allocated_concurrently(), 5);

    // Allocate 4 more (reusing 2 freed + 2 new)
    for _ in 0..4 {
        allocator.allocate();
    }

    // Now we have 7 allocated, which is a new peak
    assert_eq!(allocator.allocated_count(), 7);
    assert_eq!(allocator.max_allocated_concurrently(), 7);

    // Deallocate everything
    for i in 0..7 {
        allocator.deallocate(i);
    }

    // Current is 0, but max remains 7
    assert_eq!(allocator.allocated_count(), 0);
    assert_eq!(allocator.max_allocated_concurrently(), 7);
}

#[test]
fn test_reset_max_allocated() {
    let mut allocator = FakeSlabAllocator::new();

    // Create a peak of 3
    let _idx1 = allocator.allocate();
    let idx2 = allocator.allocate();
    let _idx3 = allocator.allocate();

    assert_eq!(allocator.max_allocated_concurrently(), 3);

    // Deallocate one
    allocator.deallocate(idx2);
    assert_eq!(allocator.allocated_count(), 2);

    // Reset max to current
    allocator.reset_max_allocated();
    assert_eq!(allocator.max_allocated_concurrently(), 2);

    // Allocate more to create new peak
    allocator.allocate();
    allocator.allocate();
    allocator.allocate();

    assert_eq!(allocator.max_allocated_concurrently(), 5);
}

#[test]
fn test_lowest_free_index_reused_first() {
    let mut allocator = FakeSlabAllocator::with_starting_index(10);
    let a = allocator.allocate();
    let b = allocator.allocate();
    let c = allocator.allocate();
    assert_eq!((a, b, c), (10, 11, 12));
    assert_eq!(allocator.total_allocated(), 13);

    allocator.deallocate(12);
    allocator.deallocate(10);
    // the lowest freed index comes back first
    assert_eq!(allocator.allocate(), 10);
    assert_eq!(allocator.allocate(), 12);
    // fresh indices resume only after the free list is empty
    assert_eq!(allocator.allocate(), 13);
}

#[test]
fn test_is_allocated_and_double_free() {
    let mut allocator = FakeSlabAllocator::new();
    let a = allocator.allocate();
    assert!(allocator.is_allocated(a));
    assert!(!allocator.is_allocated(99));

    allocator.deallocate(a);
    assert!(!allocator.is_allocated(a));
    // freeing twice, or freeing a never-allocated index, changes nothing
    allocator.deallocate(a);
    allocator.deallocate(99);
    assert_eq!(allocator.allocated_count(), 0);
    assert_eq!(allocator.allocate(), a);
}
