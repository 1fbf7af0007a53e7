//! Pause and cancel requests passed to a running mission, and their
//! acknowledgement, through state shared between clones of a handler.

use vstd::prelude::*;
use std::sync::Arc;
use std::sync::atomic::{AtomicBool, AtomicU8, Ordering};

verus! {

/// A request to a running mission (`Idle` when there is none).
#[derive(Debug, Clone, Copy, PartialEq, Eq, Structural)]
pub enum Signal {
    Idle,
    Pause,
    Cancel,
}

/// The signal a stored byte stands for: 1 is pause, 2 is cancel, anything
/// else is no signal.
pub open spec fn signal_of(v: u8) -> Signal {
    if v == 1 {
        Signal::Pause
    } else if v == 2 {
        Signal::Cancel
    } else {
        Signal::Idle
    }
}

/// The byte a signal is stored as.
pub open spec fn code_of(s: Signal) -> u8 {
    match s {
        Signal::Idle => 0,
        Signal::Pause => 1,
        Signal::Cancel => 2,
    }
}

impl From<u8> for Signal {
    fn from(v: u8) -> (s: Self) {
        if v == 1 {
            Signal::Pause
        } else if v == 2 {
            Signal::Cancel
        } else {
            Signal::Idle
        }
    }
}

impl vstd::std_specs::convert::FromSpecImpl<u8> for Signal {
    open spec fn obeys_from_spec() -> bool {
        true
    }

    open spec fn from_spec(v: u8) -> Signal {
        signal_of(v)
    }
}

impl From<Signal> for u8 {
    fn from(s: Signal) -> (v: u8) {
        match s {
            Signal::Idle => 0,
            Signal::Pause => 1,
            Signal::Cancel => 2,
        }
    }
}

impl vstd::std_specs::convert::FromSpecImpl<Signal> for u8 {
    open spec fn obeys_from_spec() -> bool {
        true
    }

    open spec fn from_spec(s: Signal) -> u8 {
        code_of(s)
    }
}

/// Decoding a stored signal gives back the signal that was stored, and
/// the three signals are stored as distinct bytes.
pub proof fn lemma_signal_roundtrip(s: Signal, t: Signal)
    ensures
        signal_of(code_of(s)) == s,
        code_of(s) == code_of(t) ==> s == t,
{
}

/// Whether the stored byte `code` stands for a pending signal.
pub fn signal_pending(code: u8) -> (b: bool)
    ensures
        b == (signal_of(code) != Signal::Idle),
{
    Signal::from(code) != Signal::Idle
}

/// What a mission makes of the stored byte `code` when it checks for a
/// signal: the signal it stands for, and whether to acknowledge it (exactly
/// when one is pending).
pub fn signal_to_acknowledge(code: u8) -> (r: (Signal, bool))
    ensures
        r.0 == signal_of(code),
        r.1 == (r.0 != Signal::Idle),
{
    let signal = Signal::from(code);
    (signal, signal != Signal::Idle)
}

/// Shares pause and cancel requests between the clones of a handler. The
/// stored byte and the acknowledgement flag are shared atomics whose values
/// the contracts do not follow; the decisions taken on a loaded byte are the
/// verified functions `signal_pending` and `signal_to_acknowledge`.
#[derive(Clone)]
pub struct SignalHandler {
    signal: Arc<AtomicU8>,
    acknowledged: Arc<AtomicBool>,
}

impl SignalHandler {
    /// A handler with no pending signal.
    pub fn new() -> (h: Self) {
        SignalHandler { signal: Arc::new(AtomicU8::new(0)), acknowledged: Arc::new(AtomicBool::new(false)) }
    }

    /// Posts a signal; any earlier acknowledgement is withdrawn first.
    pub fn send(&self, signal: Signal) {
        self.acknowledged.store(false, Ordering::SeqCst);
        self.signal.store(u8::from(signal), Ordering::SeqCst);
    }

    /// Asks the mission to pause.
    pub fn pause(&self) {
        self.send(Signal::Pause);
    }

    /// Asks the mission to cancel.
    pub fn cancel(&self) {
        self.send(Signal::Cancel);
    }

    /// Withdraws any signal and its acknowledgement.
    pub fn clear(&self) {
        self.signal.store(0, Ordering::SeqCst);
        self.acknowledged.store(false, Ordering::SeqCst);
    }

    /// The pending signal, decoded from the shared byte.
    pub fn check(&self) -> (s: Signal) {
        Signal::from(self.signal.load(Ordering::SeqCst))
    }

    /// Whether some signal is pending.
    pub fn has_signal(&self) -> (b: bool) {
        signal_pending(self.signal.load(Ordering::SeqCst))
    }

    /// Records that the mission has seen the pending signal.
    pub fn acknowledge(&self) {
        self.acknowledged.store(true, Ordering::SeqCst);
    }

    /// Whether the pending signal has been acknowledged.
    pub fn is_acknowledged(&self) -> (b: bool) {
        self.acknowledged.load(Ordering::SeqCst)
    }

    /// The pending signal; when there is one, it is acknowledged.
    pub fn check_and_acknowledge(&self) -> (s: Signal) {
        let (signal, acknowledge) = signal_to_acknowledge(self.signal.load(Ordering::SeqCst));
        if acknowledge {
            self.acknowledge();
        }
        signal
    }
}

} // verus!
