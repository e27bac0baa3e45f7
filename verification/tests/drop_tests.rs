// Teardown behaviour: every allocation's cleanup runs exactly once, at
// destroy time, never before. A cleanup is modelled by marking the flag
// the allocation's token points at, the way a destructor would flip a
// "dropped" flag.

use untyped_arena::Arena;

fn run_cleanups(fins: &[untyped_arena::FinalizerEntry], flags: &mut [bool]) {
    for e in fins {
        let idx = e.token as usize;
        assert!(!flags[idx], "cleanup ran twice for one allocation");
        flags[idx] = true;
    }
}

#[test]
fn test_drop_basic() {
    let mut arena = Arena::new();

    let mut out = [false; 1];
    arena.allocate(vec![0u8; 8], 0);

    let fins = arena.destroy();
    run_cleanups(&fins, &mut out);

    assert!(out[0]);
}

#[test]
fn test_drop_many() {
    let mut arena = Arena::new();

    const DEPTH: usize = 10000;

    let mut out = vec![false; DEPTH + 1];
    for i in 0..DEPTH {
        arena.allocate(vec![0u8; 8], i as u64);
    }

    let fins = arena.destroy();
    run_cleanups(&fins, &mut out);

    for i in 0..DEPTH {
        assert!(out[i]);
    }
    assert!(!out[DEPTH]);
}

#[test]
fn test_no_cleanup_before_destroy() {
    let mut arena = Arena::new();
    arena.allocate(vec![1u8, 2, 3], 7);
    arena.allocate(vec![4u8], 8);
    // Until destroy is called, no finalizer has been handed out: the
    // registry is still inside the arena, and only destroy returns it.
    assert_eq!(arena.allocations(), 2);
    let fins = arena.destroy();
    assert_eq!(fins.len(), 2);
}

#[test]
fn test_finalization_in_allocation_order() {
    let mut arena = Arena::new();
    arena.allocate(vec![10u8], 5);
    arena.allocate(vec![20u8, 21], 7);
    arena.allocate(vec![30u8, 31, 32], 9);

    let fins = arena.destroy();
    let tokens: Vec<u64> = fins.iter().map(|e| e.token).collect();
    assert_eq!(tokens, vec![5, 7, 9]);
    let sizes: Vec<usize> = fins.iter().map(|e| e.size).collect();
    assert_eq!(sizes, vec![1, 2, 3]);
}

#[test]
fn test_duplicate_tokens_still_run_once_each() {
    let mut arena = Arena::new();
    arena.allocate(vec![1u8], 42);
    arena.allocate(vec![2u8], 42);
    let fins = arena.destroy();
    // Two allocations with the same token are two distinct finalizer
    // entries: each runs once, so the token appears twice.
    assert_eq!(fins.len(), 2);
    assert_eq!(fins[0].token, 42);
    assert_eq!(fins[1].token, 42);
}

// Soundness boundary, documented rather than asserted: cleanups run
// oldest-allocated first. If a later-allocated value's cleanup were to
// read through a reference into an earlier-allocated value, it would
// observe that value after its cleanup already ran — a use-after-free in
// a host that frees resources in cleanups. The arena performs no runtime
// detection of such cross-references; callers must not create them. The
// test below only demonstrates the ordering fact that makes the pattern
// unsound: A (allocated first) is finalized before B.
#[test]
fn test_cleanup_order_boundary() {
    let mut arena = Arena::new();
    let a_token = 0u64;
    let b_token = 1u64;
    arena.allocate(vec![0xAAu8; 8], a_token);
    arena.allocate(vec![0xBBu8; 8], b_token);
    let fins = arena.destroy();
    assert_eq!(fins[0].token, a_token);
    assert_eq!(fins[1].token, b_token);
}
