use rendezvous::locks::{pass_token, SpinLock};

#[test]
fn spin_lock_hands_over_token() {
    let s = SpinLock::new(Some(5));
    assert_eq!(s.try_lock(), Some(5));
    assert_eq!(s.try_lock(), None);
    s.unlock(3);
    assert_eq!(s.try_lock(), Some(3));
}

#[test]
fn empty_spin_lock() {
    let s = SpinLock::new(None);
    assert_eq!(s.try_lock(), None);
    s.unlock(0);
    assert_eq!(s.try_lock(), Some(0));
}

#[test]
fn token_passing() {
    assert_eq!(pass_token(1000), (999, false, false));
    assert_eq!(pass_token(2), (1, false, false));
    assert_eq!(pass_token(1), (0, true, true));
    assert_eq!(pass_token(0), (0, false, true));
}
