// Allocation, alignment, growth and address stability.

use untyped_arena::{Arena, pad_len, next_pow2, INITIAL_SIZE};

#[test]
fn test_pad_len_values() {
    assert_eq!(pad_len(0, 8), 0);
    assert_eq!(pad_len(1, 8), 7);
    assert_eq!(pad_len(7, 8), 1);
    assert_eq!(pad_len(8, 8), 0);
    assert_eq!(pad_len(13, 8), 3);
    assert_eq!(pad_len(5, 4), 3);
    assert_eq!(pad_len(12, 4), 0);
}

#[test]
fn test_next_pow2_values() {
    assert_eq!(next_pow2(0), 1);
    assert_eq!(next_pow2(1), 1);
    assert_eq!(next_pow2(2), 2);
    assert_eq!(next_pow2(3), 4);
    assert_eq!(next_pow2(24), 32);
    assert_eq!(next_pow2(1024), 1024);
    assert_eq!(next_pow2(1025), 2048);
}

#[test]
fn test_new_has_default_capacity() {
    let arena = Arena::new();
    assert_eq!(arena.capacity(), INITIAL_SIZE);
    assert_eq!(arena.used(), 0);
    assert_eq!(arena.growth_events(), 0);
    assert_eq!(arena.allocations(), 0);
}

#[test]
fn test_with_capacity_rounds_to_power_of_two() {
    let arena = Arena::with_capacity(100);
    assert_eq!(arena.capacity(), 128);
}

#[test]
fn test_allocation_is_aligned() {
    let mut arena = Arena::new();
    let h1 = arena.allocate(vec![1u8, 2, 3], 0);
    let h2 = arena.allocate(vec![4u8], 1);
    let h3 = arena.allocate(vec![5u8; 9], 2);
    assert_eq!(h1.offset % 8, 0);
    assert_eq!(h2.offset % 8, 0);
    assert_eq!(h3.offset % 8, 0);
    // 3 bytes at offset 0, then padding to 8, then 1 byte, then padding.
    assert_eq!(h1.offset, 0);
    assert_eq!(h2.offset, 8);
    assert_eq!(h3.offset, 16);
}

#[test]
fn test_read_returns_stored_bytes() {
    let mut arena = Arena::new();
    let h = arena.allocate(vec![9u8, 8, 7, 6], 0);
    assert_eq!(arena.read(&h), vec![9u8, 8, 7, 6]);
}

// Scenario: a value whose size exceeds the active chunk's remaining
// capacity forces a replacement chunk of max(2 * old, next_pow2(request))
// bytes; addresses already handed out do not move, and the new value
// lands in the new chunk.
#[test]
fn test_growth_replaces_chunk() {
    let mut arena = Arena::with_capacity(16);
    assert_eq!(arena.capacity(), 16);

    let h1 = arena.allocate(vec![1u8, 2, 3, 4, 5, 6, 7, 8], 0);
    assert_eq!(h1.chunk, 0);
    assert_eq!(arena.growth_events(), 0);

    // 24 bytes do not fit in the remaining 8: grow to max(32, 32) = 32.
    let h2 = arena.allocate(vec![0xCDu8; 24], 1);
    assert_eq!(arena.growth_events(), 1);
    assert_eq!(arena.capacity(), 32);
    assert_eq!(h2.chunk, 1);
    assert_eq!(h2.offset, 0);

    // The old chunk was retired untouched: h1 still reads back.
    assert_eq!(arena.read(&h1), vec![1u8, 2, 3, 4, 5, 6, 7, 8]);
    assert_eq!(arena.read(&h2), vec![0xCDu8; 24]);
}

// Scenario: address stability across many growth events. Every recorded
// address re-reads unchanged at the very end.
#[test]
fn test_addresses_stable_across_growth() {
    let mut arena = Arena::with_capacity(16);
    let mut handles = Vec::new();
    for i in 0..200u64 {
        let payload = vec![i as u8; 8];
        handles.push((arena.allocate(payload.clone(), i), payload));
    }
    assert!(arena.growth_events() > 0);
    for (h, payload) in &handles {
        assert_eq!(&arena.read(h), payload);
    }
    assert_eq!(arena.allocations(), 200);
}

// Reserving n bytes and then allocating values whose aligned sizes total
// at most n (less one alignment unit of slack for realignment) triggers
// zero further growth events.
#[test]
fn test_reserve_prevents_growth() {
    let mut arena = Arena::with_capacity(16);
    arena.reserve(100);
    // 16 < 100: one growth event, to max(2 * 16, next_pow2(100)) = 128.
    assert_eq!(arena.growth_events(), 1);
    assert_eq!(arena.capacity(), 128);

    // Five aligned 16-byte slots = 80 <= 100 - 7: no further growth.
    for i in 0..5u64 {
        arena.allocate(vec![7u8; 16], i);
    }
    assert_eq!(arena.growth_events(), 1);
}

#[test]
fn test_reserve_with_room_does_nothing() {
    let mut arena = Arena::with_capacity(1024);
    arena.reserve(256);
    assert_eq!(arena.growth_events(), 0);
    assert_eq!(arena.capacity(), 1024);
}

#[test]
fn test_reserve_type_sizes_for_aligned_slots() {
    let mut arena = Arena::with_capacity(16);
    // Ten 12-byte elements occupy ten aligned 16-byte slots: 160 bytes.
    arena.reserve_type(12, 4, 10);
    assert_eq!(arena.growth_events(), 1);
    assert_eq!(arena.capacity(), 256);
    for i in 0..10u64 {
        arena.allocate(vec![3u8; 12], i);
    }
    assert_eq!(arena.growth_events(), 1);
}

#[test]
fn test_with_capacity_zero() {
    let mut arena = Arena::with_capacity(0);
    assert_eq!(arena.capacity(), 1);
    let h = arena.allocate(vec![5u8, 6], 0);
    // Two bytes exceed the single free byte: grow to max(2 * 1, 2) = 2.
    assert_eq!(arena.growth_events(), 1);
    assert_eq!(arena.capacity(), 2);
    assert_eq!(h.chunk, 1);
    assert_eq!(arena.read(&h), vec![5u8, 6]);
}

#[test]
fn test_zero_sized_allocation() {
    let mut arena = Arena::new();
    let h = arena.allocate(Vec::new(), 3);
    assert_eq!(h.size, 0);
    assert_eq!(arena.read(&h), Vec::<u8>::new());
    let fins = arena.destroy();
    assert_eq!(fins.len(), 1);
    assert_eq!(fins[0].token, 3);
}
