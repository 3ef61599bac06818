use ratchet_tree::ecdh::Key;
use ratchet_tree::mem::{AllocatorCell, AllocatorPool, AllocatorPoolErrorKind};

#[test]
fn new_pool_is_empty() {
    let pool = AllocatorPool::new(bumpalo::Bump::new());
    assert_eq!(pool.len(), 0);
    assert_eq!(pool.capacity(), 0);
    assert!(!pool.has(0));
}

#[test]
fn new_with_init_fills_slots() {
    let pool = AllocatorPool::new_with_init::<Key>(bumpalo::Bump::new(), 6, 16);
    assert_eq!(pool.len(), 6);
    assert_eq!(pool.capacity(), 6);
    assert!(pool.has(0));
    assert!(pool.has(5));
    assert!(!pool.has(6));
}

#[test]
fn expand_reserves_and_shrink_truncates() {
    let mut pool = AllocatorPool::new_with_init::<Key>(bumpalo::Bump::new(), 4, 8);
    pool.expand(3).unwrap();
    assert_eq!(pool.len(), 4);
    assert_eq!(pool.capacity(), 7);
    pool.shrink(2);
    assert_eq!(pool.len(), 2);
    assert_eq!(pool.capacity(), 2);
    pool.shrink(9);
    assert_eq!(pool.len(), 2);
}

#[test]
fn initialize_inserts_a_slot() {
    let mut pool = AllocatorPool::new_with_init::<Key>(bumpalo::Bump::new(), 2, 8);
    pool.initialize::<Key>(1, 8);
    assert_eq!(pool.len(), 3);
    assert!(pool.capacity() >= 3);
}

#[test]
fn clear_requires_existing_slot() {
    let mut pool = AllocatorPool::new_with_init::<Key>(bumpalo::Bump::new(), 2, 8);
    match pool.clear(5) {
        Err(e) => assert_eq!(e.kind, AllocatorPoolErrorKind::NoAllocatorAtIndex),
        Ok(_) => panic!("clearing a missing slot must fail"),
    }
    pool.clear(0).unwrap();
}

#[test]
fn outstanding_handle_defers_recycling() {
    let mut pool = AllocatorPool::new_with_init::<Key>(bumpalo::Bump::new(), 2, 8);
    let held: AllocatorCell = pool.get(1);
    match pool.clear(1) {
        Err(e) => assert_eq!(e.kind, AllocatorPoolErrorKind::CellBorrowed),
        Ok(_) => panic!("a shared cell must not reset"),
    }
    drop(held);
    pool.clear(1).unwrap();
}

#[test]
fn get_mut_reaches_a_slot() {
    let mut pool = AllocatorPool::new_with_init::<Key>(bumpalo::Bump::new(), 2, 8);
    *pool.get_mut(0) = AllocatorCell::new(bumpalo::Bump::new());
    assert_eq!(pool.len(), 2);
    pool.clear(0).unwrap();
}

#[test]
fn create_bumpalo_builds_an_arena() {
    let bump = AllocatorPool::create_bumpalo::<Key>(32);
    let cell = AllocatorCell::new(bump);
    let _clone = cell.clone();
}
