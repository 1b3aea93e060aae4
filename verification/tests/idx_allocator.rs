//! Slot allocation: fresh indexes count up, freed ones are recycled oldest
//! first, and the reserved overflow slot is shared and never recycled.

use resource_control::idx_allocator::{IdxAllocator, MAX_THREAD_IDX};

#[test]
fn fresh_indexes_count_up() {
    let mut a = IdxAllocator::new();
    assert_eq!(a.allocate(), 0);
    assert_eq!(a.allocate(), 1);
    assert_eq!(a.allocate(), 2);
}

#[test]
fn freed_indexes_are_recycled_in_order() {
    let mut a = IdxAllocator::new();
    let i0 = a.allocate();
    let i1 = a.allocate();
    let i2 = a.allocate();
    a.free(i1);
    a.free(i0);
    // oldest freed first, then fresh again
    assert_eq!(a.allocate(), i1);
    assert_eq!(a.allocate(), i0);
    assert_eq!(a.allocate(), 3);
    assert_eq!(i2, 2);
}

#[test]
fn exhausted_range_shares_the_reserved_slot() {
    let mut a = IdxAllocator::new();
    for i in 0..MAX_THREAD_IDX {
        assert_eq!(a.allocate(), i);
    }
    // the range is used up: everyone now gets the reserved slot
    assert_eq!(a.allocate(), MAX_THREAD_IDX);
    assert_eq!(a.allocate(), MAX_THREAD_IDX);
    // the reserved slot is never recycled
    a.free(MAX_THREAD_IDX);
    assert_eq!(a.allocate(), MAX_THREAD_IDX);
    // a real slot is
    a.free(7);
    assert_eq!(a.allocate(), 7);
}
