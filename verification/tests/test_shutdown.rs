use mlh::archiver::worker::is_shutdown_requested;
use std::sync::{
    atomic::{AtomicBool, Ordering},
    Arc,
};

#[test]
fn test_is_shutdown_requested_helper() {
    let shutdown_flag = Arc::new(AtomicBool::new(false));
    assert!(!is_shutdown_requested(&shutdown_flag));
    shutdown_flag.store(true, Ordering::Relaxed);
    assert!(is_shutdown_requested(&shutdown_flag));
}

#[test]
fn test_shutdown_flag_clone_shares_state() {
    let shutdown_flag = Arc::new(AtomicBool::new(false));
    let clone = Arc::clone(&shutdown_flag);
    shutdown_flag.store(true, Ordering::Relaxed);
    assert!(clone.load(Ordering::Relaxed));
    assert!(is_shutdown_requested(&clone));
}

#[test]
fn test_worker_exits_when_shutdown_set_before_task() {
    let shutdown_flag = Arc::new(AtomicBool::new(true));
    assert!(shutdown_flag.load(Ordering::Relaxed));
    assert!(is_shutdown_requested(&shutdown_flag));
}
