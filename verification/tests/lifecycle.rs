use claude_pilot::lifecycle::{
    is_process_running, process_running_from, LifecycleManager, LockInfo, LockRetry, OrchestratorConfig, ProcessProbe,
    Timestamp,
};
use claude_pilot::signal::{Signal, SignalHandler};

fn own_pid() -> u32 {
    nix::unistd::getpid().as_raw() as u32
}

#[test]
fn lock_paths() {
    let m = LifecycleManager::new("/p");
    assert_eq!(m.locks_dir(), "/p/locks");
    assert_eq!(m.lock_path("m1"), "/p/locks/m1.lock");
    assert_eq!(m.temp_lock_path("m1", 42), "/p/locks/m1.42.lock.tmp");
    assert_eq!(m.stale_threshold_secs(), 300);
    assert_eq!(m.retry_attempts(), 3);
    assert_eq!(m.heartbeat_interval_secs(), 30);
}

#[test]
fn retry_delay_grows_until_last_attempt() {
    let cfg = OrchestratorConfig { lock_stale_threshold_secs: 10, lock_retry_attempts: 3, lock_retry_delay_ms: 50, heartbeat_interval_secs: 5 };
    let m = LifecycleManager::with_config("d", &cfg);
    assert_eq!(m.after_failed_attempt(0), LockRetry::RetryAfter(50));
    assert_eq!(m.after_failed_attempt(1), LockRetry::RetryAfter(100));
    assert_eq!(m.after_failed_attempt(2), LockRetry::GiveUp);
}

fn ts(secs: i64, nanos: u32) -> Timestamp {
    Timestamp { secs, nanos }
}

#[test]
fn staleness_from_heartbeat_age() {
    let lock = LockInfo::new_at(1, ts(1000, 0), "host".to_string());
    assert!(!lock.is_stale_at(ts(1000, 0), 10));
    assert!(!lock.is_stale_at(ts(1010, 0), 10));
    assert!(lock.is_stale_at(ts(1010, 1), 10));
    assert!(lock.is_stale_at(ts(999, 999_999_999), 10));
}

#[test]
fn lock_from_other_host_is_not_alive() {
    let lock = LockInfo::new(own_pid(), "elsewhere".to_string());
    assert!(!lock.is_process_alive("here"));
    assert!(!lock.is_valid(300, "here"));
    let m = LifecycleManager::new("/p");
    assert!(m.is_orphan_state(&Some(lock), "here"));
    assert!(m.is_orphan_state(&None, "here"));
    assert!(!m.is_actively_running(&None, "here"));
}

#[test]
fn own_process_is_running_and_lock_is_valid() {
    assert!(is_process_running(own_pid()));
    let lock = LockInfo::new(own_pid(), "here".to_string());
    assert!(lock.is_process_alive("here"));
    assert!(lock.is_valid(300, "here"));
    let m = LifecycleManager::new("/p");
    assert!(m.is_actively_running(&Some(lock), "here"));
}

#[test]
fn probe_outcomes() {
    assert!(process_running_from(ProcessProbe::Delivered));
    assert!(process_running_from(ProcessProbe::PermissionDenied));
    assert!(!process_running_from(ProcessProbe::NoSuchProcess));
    assert!(!process_running_from(ProcessProbe::Failed));
}

#[test]
fn touch_keeps_identity() {
    let mut lock = LockInfo::new_at(7, ts(5, 0), "h".to_string());
    lock.touch();
    assert_eq!(lock.pid, 7);
    assert_eq!(lock.started_at, ts(5, 0));
    assert!(lock.last_heartbeat.secs > 5);
}

#[test]
fn signal_codes_roundtrip() {
    for s in [Signal::Idle, Signal::Pause, Signal::Cancel] {
        assert_eq!(Signal::from(u8::from(s)), s);
    }
    assert_eq!(Signal::from(9u8), Signal::Idle);
    assert_eq!(u8::from(Signal::Cancel), 2);
}

#[test]
fn signal_handler_shares_state_between_clones() {
    let h = SignalHandler::new();
    let other = h.clone();
    assert_eq!(h.check(), Signal::Idle);
    assert!(!h.has_signal());
    other.pause();
    assert_eq!(h.check(), Signal::Pause);
    assert!(!h.is_acknowledged());
    assert_eq!(h.check_and_acknowledge(), Signal::Pause);
    assert!(other.is_acknowledged());
    other.cancel();
    assert!(!h.is_acknowledged());
    assert_eq!(h.check(), Signal::Cancel);
    h.clear();
    assert_eq!(other.check(), Signal::Idle);
    assert_eq!(other.check_and_acknowledge(), Signal::Idle);
    assert!(!other.is_acknowledged());
    h.send(Signal::Pause);
    h.acknowledge();
    assert!(other.is_acknowledged());
}

#[test]
fn live_lock_blocks_and_stale_lock_does_not() {
    let m = LifecycleManager::new("/p");
    let live = LockInfo::new(own_pid(), "here".to_string());
    assert_eq!(m.blocking_owner(&Some(live), "here"), Some(own_pid()));
    let stale = LockInfo::new_at(own_pid(), ts(0, 0), "here".to_string());
    assert_eq!(m.blocking_owner(&Some(stale), "here"), None);
    let foreign = LockInfo::new(own_pid(), "elsewhere".to_string());
    assert_eq!(m.blocking_owner(&Some(foreign), "here"), None);
    assert_eq!(m.blocking_owner(&None, "here"), None);
    assert_eq!(m.retry_delay_ms(), 100);
}
