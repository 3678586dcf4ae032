use media_server::locks::LibraryLocks;

#[test]
fn one_scan_per_library() {
    let mut locks = LibraryLocks::new();
    assert!(locks.try_acquire(1));
    assert!(!locks.try_acquire(1));
    assert!(locks.try_acquire(2));
    assert!(locks.is_held(1) && locks.is_held(2));
    locks.release(1);
    assert!(!locks.is_held(1));
    assert!(locks.is_held(2));
    assert!(locks.try_acquire(1));
    locks.release(3);
    assert!(locks.is_held(1) && locks.is_held(2) && !locks.is_held(3));
}
