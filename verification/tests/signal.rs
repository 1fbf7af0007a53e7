use claude_pilot::signal::{signal_pending, signal_to_acknowledge, Signal, SignalHandler};

#[test]
fn pending_exactly_for_pause_and_cancel_codes() {
    assert!(!signal_pending(0));
    assert!(signal_pending(1));
    assert!(signal_pending(2));
    assert!(!signal_pending(7));
    assert_eq!(signal_to_acknowledge(1), (Signal::Pause, true));
    assert_eq!(signal_to_acknowledge(2), (Signal::Cancel, true));
    assert_eq!(signal_to_acknowledge(0), (Signal::Idle, false));
}

#[test]
fn handler_acknowledges_pending_signal() {
    let h = SignalHandler::new();
    assert_eq!(h.check_and_acknowledge(), Signal::Idle);
    assert!(!h.is_acknowledged());
    let other = h.clone();
    other.pause();
    assert!(h.has_signal());
    assert_eq!(h.check_and_acknowledge(), Signal::Pause);
    assert!(other.is_acknowledged());
    h.clear();
    assert!(!other.has_signal());
    assert!(!other.is_acknowledged());
}
