use mcpmux::window::WindowKey;

#[test]
fn dead_pid_is_not_live() {
    // Even a probe that reports every process alive cannot revive these.
    assert!(!WindowKey::from_pid(u32::MAX).is_live(|_| true));
    assert!(!WindowKey::from_pid(0).is_live(|_| true));
}

#[test]
fn live_check_asks_the_probe() {
    let key = WindowKey::from_pid(4242);
    assert_eq!(key.pid(), 4242);
    assert!(key.is_live(|p| p == 4242));
    assert!(!key.is_live(|_| false));
    assert_eq!(WindowKey::from_pid(i32::MAX as u32).probe_pid(), Some(i32::MAX));
    assert_eq!(WindowKey::from_pid(i32::MAX as u32 + 1).probe_pid(), None);
}
