use graphpipe::stable_ids::StableIdAllocator;

#[test]
fn acquire_draws_fresh_ids_in_order() {
    let mut alloc: StableIdAllocator<u32> = StableIdAllocator::new();
    assert_eq!(alloc.acquire_id(), 0);
    assert_eq!(alloc.acquire_id(), 1);
    assert_eq!(alloc.acquire_id(), 2);
}

#[test]
fn released_ids_are_reused_oldest_first() {
    let mut alloc: StableIdAllocator<u32> = StableIdAllocator::new();
    let _ = alloc.acquire_id();
    let _ = alloc.acquire_id();
    let _ = alloc.acquire_id();
    alloc.release_id(1);
    alloc.release_id(0);
    assert_eq!(alloc.acquire_id(), 1);
    assert_eq!(alloc.acquire_id(), 0);
    assert_eq!(alloc.acquire_id(), 3);
}
