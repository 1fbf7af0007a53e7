//! Mission locks: where lock files live, when a lock is stale, whether its
//! owner is alive, and how acquiring one is retried.

use vstd::prelude::*;
use crate::paths::{join_path, path_join};
use crate::text::{decimal, push_decimal, push_str};

verus! {

broadcast use vstd::string::group_string_axioms;

/// Lock-related orchestrator settings.
#[derive(Debug, Clone, Copy)]
pub struct OrchestratorConfig {
    pub lock_stale_threshold_secs: u64,
    pub lock_retry_attempts: u32,
    pub lock_retry_delay_ms: u64,
    pub heartbeat_interval_secs: u64,
}

impl Default for OrchestratorConfig {
    fn default() -> (c: Self)
        ensures
            c.lock_stale_threshold_secs == 300,
            c.lock_retry_attempts == 3,
            c.lock_retry_delay_ms == 100,
            c.heartbeat_interval_secs == 30,
    {
        OrchestratorConfig {
            lock_stale_threshold_secs: 300,
            lock_retry_attempts: 3,
            lock_retry_delay_ms: 100,
            heartbeat_interval_secs: 30,
        }
    }
}

/// A UTC instant: whole seconds since the Unix epoch and the nanoseconds
/// past that second.
#[derive(Debug, Clone, Copy, PartialEq, Eq, Structural)]
pub struct Timestamp {
    pub secs: i64,
    pub nanos: u32,
}

/// Nanoseconds from `a` to `b` (negative when `b` is earlier).
pub open spec fn nanos_between(a: Timestamp, b: Timestamp) -> int {
    (b.secs - a.secs) * 1_000_000_000 + (b.nanos - a.nanos)
}

/// The current time as seconds and nanoseconds since the epoch, read with
/// `SystemTime::now` and converted by chrono's `From<SystemTime>` for
/// `DateTime<Utc>`. That conversion also handles a clock set before 1970
/// (negative seconds), so the only claim is that the nanoseconds stay below
/// one second. Which instant comes back depends on the clock and is left
/// unsaid; chrono unwraps the conversion, which fails only for a clock set
/// beyond the dates chrono can represent (some 262,000 years away).
#[verifier::external_body]
fn utc_now() -> (t: Timestamp)
    ensures
        t.nanos < 1_000_000_000,
{
    let now: chrono::DateTime<chrono::Utc> = chrono::DateTime::from(std::time::SystemTime::now());
    Timestamp { secs: now.timestamp(), nanos: now.timestamp_subsec_nanos() }
}

/// Who holds a mission lock and when it last showed signs of life.
#[derive(Debug, Clone)]
pub struct LockInfo {
    pub pid: u32,
    pub started_at: Timestamp,
    pub last_heartbeat: Timestamp,
    pub hostname: String,
}

/// A lock is stale when its last heartbeat lies more than `threshold_secs`
/// in the past, or in the future (a clock skew).
pub open spec fn stale_at(heartbeat: Timestamp, now: Timestamp, threshold_secs: u64) -> bool {
    let d = nanos_between(heartbeat, now);
    d < 0 || d > threshold_secs * 1_000_000_000
}

/// A lock is fresh when read at its own heartbeat; once it has gone stale
/// by age it stays stale at every later time; a longer threshold never
/// makes a fresh lock stale.
pub proof fn lemma_staleness(heartbeat: Timestamp, now: Timestamp, later: Timestamp, threshold_secs: u64, longer: u64)
    requires
        nanos_between(now, later) >= 0,
        threshold_secs <= longer,
    ensures
        !stale_at(heartbeat, heartbeat, threshold_secs),
        stale_at(heartbeat, now, threshold_secs) && nanos_between(heartbeat, now) >= 0 ==> stale_at(
            heartbeat,
            later,
            threshold_secs,
        ),
        !stale_at(heartbeat, now, threshold_secs) ==> !stale_at(heartbeat, now, longer),
{
    assert(nanos_between(heartbeat, later) == nanos_between(heartbeat, now) + nanos_between(now, later));
    assert(threshold_secs * 1_000_000_000 <= longer * 1_000_000_000) by (nonlinear_arith)
        requires
            threshold_secs <= longer,
    ;
}

/// What probing a process with a null signal reported.
#[derive(Debug, Clone, Copy, PartialEq, Eq, Structural)]
pub enum ProcessProbe {
    /// The signal could be delivered.
    Delivered,
    /// No process has that id (`ESRCH`).
    NoSuchProcess,
    /// The process exists but belongs to someone else (`EPERM`).
    PermissionDenied,
    /// Any other error.
    Failed,
}

/// `nix::sys::signal::kill` with no signal, which only checks that `pid`
/// could be signalled. The outcome depends on the processes running at the
/// time of the call, so nothing is promised of it.
#[verifier::external_body]
fn probe_process(pid: i32) -> (p: ProcessProbe) {
    match nix::sys::signal::kill(nix::unistd::Pid::from_raw(pid), None) {
        Ok(_) => ProcessProbe::Delivered,
        Err(nix::errno::Errno::ESRCH) => ProcessProbe::NoSuchProcess,
        Err(nix::errno::Errno::EPERM) => ProcessProbe::PermissionDenied,
        Err(_) => ProcessProbe::Failed,
    }
}

/// Whether a probe outcome shows a running process: delivered, or refused
/// for lack of permission.
pub open spec fn probe_shows_running(p: ProcessProbe) -> bool {
    p == ProcessProbe::Delivered || p == ProcessProbe::PermissionDenied
}

/// Whether a probe outcome shows a running process.
pub fn process_running_from(p: ProcessProbe) -> (b: bool)
    ensures
        b == probe_shows_running(p),
{
    match p {
        ProcessProbe::Delivered => true,
        ProcessProbe::NoSuchProcess => false,
        ProcessProbe::PermissionDenied => true,
        ProcessProbe::Failed => false,
    }
}

/// Whether a process with this id runs on this machine; the id is taken as
/// the signed process id it stands for.
pub fn is_process_running(pid: u32) -> (b: bool) {
    let raw: i32 = #[verifier::truncate] (pid as i32);
    process_running_from(probe_process(raw))
}

impl LockInfo {
    /// Lock information for process `pid` on `hostname`, taken at `now`.
    pub fn new_at(pid: u32, now: Timestamp, hostname: String) -> (l: Self)
        ensures
            l.pid == pid,
            l.started_at == now,
            l.last_heartbeat == now,
            l.hostname@ == hostname@,
    {
        LockInfo { pid, started_at: now, last_heartbeat: now, hostname }
    }

    /// Lock information for process `pid` on `hostname`, taken now.
    pub fn new(pid: u32, hostname: String) -> (l: Self)
        ensures
            l.pid == pid,
            l.started_at == l.last_heartbeat,
            l.last_heartbeat.nanos < 1_000_000_000,
            l.hostname@ == hostname@,
    {
        Self::new_at(pid, utc_now(), hostname)
    }

    /// Records a heartbeat taken now.
    pub fn touch(&mut self)
        ensures
            final(self).pid == old(self).pid,
            final(self).started_at == old(self).started_at,
            final(self).hostname == old(self).hostname,
            final(self).last_heartbeat.nanos < 1_000_000_000,
    {
        self.last_heartbeat = utc_now();
    }

    /// Whether the last heartbeat is more than `threshold_secs` before
    /// `now`, or after it.
    pub fn is_stale_at(&self, now: Timestamp, threshold_secs: u64) -> (b: bool)
        ensures
            b == stale_at(self.last_heartbeat, now, threshold_secs),
    {
        let d: i128 = (now.secs as i128 - self.last_heartbeat.secs as i128) * 1_000_000_000
            + (now.nanos as i128 - self.last_heartbeat.nanos as i128);
        d < 0 || d > (threshold_secs as i128) * 1_000_000_000
    }

    /// Whether the last heartbeat is older than `threshold_secs`, or lies
    /// in the future; read against the current time.
    pub fn is_stale(&self, threshold_secs: u64) -> (b: bool)
        ensures
            exists|now: Timestamp| now.nanos < 1_000_000_000 && b == stale_at(self.last_heartbeat, now, threshold_secs),
    {
        let now = utc_now();
        let b = self.is_stale_at(now, threshold_secs);
        proof {
            assert(now.nanos < 1_000_000_000 && b == stale_at(self.last_heartbeat, now, threshold_secs));
        }
        b
    }

    /// Whether the owner is alive: it ran on `current_host` and a probe
    /// says it is running.
    pub fn is_process_alive(&self, current_host: &str) -> (b: bool)
        ensures
            self.hostname@ != current_host@ ==> !b,
    {
        let host = current_host.to_string();
        if !(self.hostname == host) {
            return false;
        }
        is_process_running(self.pid)
    }

    /// Whether the lock still protects a running mission: its owner is alive
    /// and its heartbeat is fresh.
    pub fn is_valid(&self, threshold_secs: u64, current_host: &str) -> (b: bool)
        ensures
            self.hostname@ != current_host@ ==> !b,
            b ==> exists|now: Timestamp| now.nanos < 1_000_000_000 && !stale_at(self.last_heartbeat, now, threshold_secs),
    {
        self.is_process_alive(current_host) && !self.is_stale(threshold_secs)
    }
}

/// At some instant the heartbeat was no more than `threshold_secs` old.
pub open spec fn fresh_at_some_time(heartbeat: Timestamp, threshold_secs: u64) -> bool {
    exists|now: Timestamp| now.nanos < 1_000_000_000 && !#[trigger] stale_at(heartbeat, now, threshold_secs)
}

/// What to do after an attempt to take a lock failed for a reason other
/// than another live owner.
#[derive(Debug, Clone, Copy, PartialEq, Eq, Structural)]
pub enum LockRetry {
    /// Wait this many milliseconds, then try again.
    RetryAfter(u64),
    /// Stop and report the failure.
    GiveUp,
}

/// Takes, checks and releases mission locks under a pilot directory.
pub struct LifecycleManager {
    locks_dir: String,
    stale_threshold_secs: u64,
    retry_attempts: u32,
    retry_delay_ms: u64,
    heartbeat_interval_secs: u64,
}

/// A lifecycle manager's settings, as values.
pub struct LifecycleView {
    pub locks_dir: Seq<char>,
    pub stale_threshold_secs: u64,
    pub retry_attempts: u32,
    pub retry_delay_ms: u64,
    pub heartbeat_interval_secs: u64,
}

impl View for LifecycleManager {
    type V = LifecycleView;

    closed spec fn view(&self) -> LifecycleView {
        LifecycleView {
            locks_dir: self.locks_dir@,
            stale_threshold_secs: self.stale_threshold_secs,
            retry_attempts: self.retry_attempts,
            retry_delay_ms: self.retry_delay_ms,
            heartbeat_interval_secs: self.heartbeat_interval_secs,
        }
    }
}

/// The lock file of a mission inside the locks directory.
pub open spec fn lock_file(locks_dir: Seq<char>, mission_id: Seq<char>) -> Seq<char> {
    path_join(locks_dir, mission_id + ".lock"@)
}

/// The temporary file a process writes before moving it into place.
pub open spec fn temp_lock_file(locks_dir: Seq<char>, mission_id: Seq<char>, pid: u32) -> Seq<char> {
    path_join(locks_dir, mission_id + "."@ + decimal(pid as nat) + ".lock.tmp"@)
}

impl LifecycleManager {
    /// A manager for `pilot_dir` with the default settings.
    pub fn new(pilot_dir: &str) -> (m: Self)
        ensures
            m@.locks_dir == path_join(pilot_dir@, "locks"@),
            m@.stale_threshold_secs == 300,
            m@.retry_attempts == 3,
            m@.retry_delay_ms == 100,
            m@.heartbeat_interval_secs == 30,
    {
        Self::with_config(pilot_dir, &OrchestratorConfig::default())
    }

    /// A manager for `pilot_dir` with the lock settings of `config`.
    pub fn with_config(pilot_dir: &str, config: &OrchestratorConfig) -> (m: Self)
        ensures
            m@.locks_dir == path_join(pilot_dir@, "locks"@),
            m@.stale_threshold_secs == config.lock_stale_threshold_secs,
            m@.retry_attempts == config.lock_retry_attempts,
            m@.retry_delay_ms == config.lock_retry_delay_ms,
            m@.heartbeat_interval_secs == config.heartbeat_interval_secs,
    {
        LifecycleManager {
            locks_dir: join_path(pilot_dir, "locks"),
            stale_threshold_secs: config.lock_stale_threshold_secs,
            retry_attempts: config.lock_retry_attempts,
            retry_delay_ms: config.lock_retry_delay_ms,
            heartbeat_interval_secs: config.heartbeat_interval_secs,
        }
    }

    /// Path of the lock file of `mission_id`.
    pub fn lock_path(&self, mission_id: &str) -> (p: String)
        ensures
            p@ == lock_file(self@.locks_dir, mission_id@),
    {
        let mut name = mission_id.to_string();
        push_str(&mut name, ".lock");
        join_path(self.locks_dir.as_str(), name.as_str())
    }

    /// Path of the temporary lock file process `pid` writes for `mission_id`.
    pub fn temp_lock_path(&self, mission_id: &str, pid: u32) -> (p: String)
        ensures
            p@ == temp_lock_file(self@.locks_dir, mission_id@, pid),
    {
        let mut name = mission_id.to_string();
        push_str(&mut name, ".");
        push_decimal(&mut name, pid as u64);
        push_str(&mut name, ".lock.tmp");
        join_path(self.locks_dir.as_str(), name.as_str())
    }

    /// Directory that holds the lock files.
    pub fn locks_dir(&self) -> (d: &str)
        ensures
            d@ == self@.locks_dir,
    {
        self.locks_dir.as_str()
    }

    /// Age, in seconds, beyond which a heartbeat is stale.
    pub fn stale_threshold_secs(&self) -> (s: u64)
        ensures
            s == self@.stale_threshold_secs,
    {
        self.stale_threshold_secs
    }

    /// Number of attempts made to take a lock.
    pub fn retry_attempts(&self) -> (n: u32)
        ensures
            n == self@.retry_attempts,
    {
        self.retry_attempts
    }

    /// Base delay between lock attempts, in milliseconds.
    pub fn retry_delay_ms(&self) -> (d: u64)
        ensures
            d == self@.retry_delay_ms,
    {
        self.retry_delay_ms
    }

    /// Seconds between two heartbeats of a held lock.
    pub fn heartbeat_interval_secs(&self) -> (s: u64)
        ensures
            s == self@.heartbeat_interval_secs,
    {
        self.heartbeat_interval_secs
    }

    /// After attempt `attempt` (counted from zero) failed: retry after a
    /// delay that grows with each attempt, unless it was the last one.
    pub fn after_failed_attempt(&self, attempt: u32) -> (r: LockRetry)
        requires
            attempt < self@.retry_attempts,
            attempt + 1 < self@.retry_attempts ==> self@.retry_delay_ms * (attempt + 1) <= u64::MAX,
        ensures
            r == (if attempt + 1 < self@.retry_attempts {
                LockRetry::RetryAfter((self@.retry_delay_ms * (attempt + 1)) as u64)
            } else {
                LockRetry::GiveUp
            }),
    {
        if attempt < self.retry_attempts - 1 {
            LockRetry::RetryAfter(self.retry_delay_ms * (attempt as u64 + 1))
        } else {
            LockRetry::GiveUp
        }
    }

    /// The process that keeps a new lock from being taken: the owner of an
    /// existing lock that still protects a running mission, if there is one.
    pub fn blocking_owner(&self, lock: &Option<LockInfo>, current_host: &str) -> (r: Option<u32>)
        ensures
            lock is None ==> r is None,
            r matches Some(pid) ==> (lock matches Some(l) && l.pid == pid && l.hostname@ == current_host@
                && fresh_at_some_time(l.last_heartbeat, self@.stale_threshold_secs)),
    {
        match lock {
            Some(l) => if l.is_valid(self.stale_threshold_secs, current_host) {
                Some(l.pid)
            } else {
                None
            },
            None => None,
        }
    }

    /// Whether the mission's lock, if any, still protects a running mission,
    /// given whether its owner was seen running on this host and the time
    /// read now.
    pub fn is_actively_running_at(&self, lock: &Option<LockInfo>, current_host: &str, running: bool, now: Timestamp) -> (b: bool)
        ensures
            b == lock_active_at(*lock, current_host@, running, now, self@.stale_threshold_secs),
    {
        match lock {
            Some(l) => {
                let host = current_host.to_string();
                l.hostname == host && running && !l.is_stale_at(now, self.stale_threshold_secs)
            },
            None => false,
        }
    }

    /// Whether the mission's state is orphaned, given whether the lock's
    /// owner was seen running on this host and the time read now.
    pub fn is_orphan_state_at(&self, lock: &Option<LockInfo>, current_host: &str, running: bool, now: Timestamp) -> (b: bool)
        ensures
            b == lock_orphaned_at(*lock, current_host@, running, now, self@.stale_threshold_secs),
    {
        match lock {
            Some(l) => {
                let host = current_host.to_string();
                !(l.hostname == host) || !running || l.is_stale_at(now, self.stale_threshold_secs)
            },
            None => true,
        }
    }

    /// Whether the mission's lock, if any, still protects a running mission.
    pub fn is_actively_running(&self, lock: &Option<LockInfo>, current_host: &str) -> (b: bool)
        ensures
            lock is None ==> !b,
            b ==> (lock matches Some(l) && l.hostname@ == current_host@ && fresh_at_some_time(
                l.last_heartbeat,
                self@.stale_threshold_secs,
            )),
            exists|running: bool, now: Timestamp|
                now.nanos < 1_000_000_000 && b == lock_active_at(*lock, current_host@, running, now, self@.stale_threshold_secs),
    {
        let (running, now) = observe(lock, current_host);
        let b = self.is_actively_running_at(lock, current_host, running, now);
        proof {
            if b {
                assert(!stale_at(lock->Some_0.last_heartbeat, now, self@.stale_threshold_secs));
            }
        }
        b
    }

    /// Whether the mission's state is orphaned: no lock, or one that no
    /// longer protects a running mission.
    pub fn is_orphan_state(&self, lock: &Option<LockInfo>, current_host: &str) -> (b: bool)
        ensures
            lock is None ==> b,
            lock matches Some(l) && l.hostname@ != current_host@ ==> b,
            !b ==> (lock matches Some(l) && l.hostname@ == current_host@ && fresh_at_some_time(
                l.last_heartbeat,
                self@.stale_threshold_secs,
            )),
            exists|running: bool, now: Timestamp|
                now.nanos < 1_000_000_000 && b == lock_orphaned_at(*lock, current_host@, running, now, self@.stale_threshold_secs),
    {
        let (running, now) = observe(lock, current_host);
        let b = self.is_orphan_state_at(lock, current_host, running, now);
        proof {
            if !b {
                assert(!stale_at(lock->Some_0.last_heartbeat, now, self@.stale_threshold_secs));
            }
        }
        b
    }
}

/// What a lock check observes of the machine: whether the lock's owner
/// runs on `current_host` (probed only when the lock was taken there), and
/// the time.
fn observe(lock: &Option<LockInfo>, current_host: &str) -> (r: (bool, Timestamp))
    ensures
        r.1.nanos < 1_000_000_000,
        lock matches Some(l) && l.hostname@ != current_host@ ==> !r.0,
{
    let running = match lock {
        Some(l) => l.is_process_alive(current_host),
        None => false,
    };
    (running, utc_now())
}

/// The lock protects a running mission: it was taken on `host`, its owner
/// was seen `running`, and its heartbeat is fresh at `now`.
pub open spec fn lock_active_at(lock: Option<LockInfo>, host: Seq<char>, running: bool, now: Timestamp, threshold_secs: u64) -> bool {
    match lock {
        Some(l) => l.hostname@ == host && running && !stale_at(l.last_heartbeat, now, threshold_secs),
        None => false,
    }
}

/// The mission is orphaned: it has no lock, or its lock was taken on
/// another host, or its owner was not seen running, or its heartbeat is
/// stale at `now`.
pub open spec fn lock_orphaned_at(lock: Option<LockInfo>, host: Seq<char>, running: bool, now: Timestamp, threshold_secs: u64) -> bool {
    match lock {
        Some(l) => l.hostname@ != host || !running || stale_at(l.last_heartbeat, now, threshold_secs),
        None => true,
    }
}

/// For the same lock, host, observation of the owner and instant, a
/// mission is orphaned exactly when it is not actively running; in
/// particular a lock taken on this host whose owner runs and whose
/// heartbeat is fresh is never orphaned, and a mission without a lock
/// always is.
pub proof fn lemma_orphan_iff_not_running(
    lock: Option<LockInfo>,
    host: Seq<char>,
    running: bool,
    now: Timestamp,
    threshold_secs: u64,
)
    ensures
        lock_orphaned_at(lock, host, running, now, threshold_secs) == !lock_active_at(lock, host, running, now, threshold_secs),
        (lock matches Some(l) && l.hostname@ == host && running && !stale_at(l.last_heartbeat, now, threshold_secs))
            ==> !lock_orphaned_at(lock, host, running, now, threshold_secs),
        lock is None ==> lock_orphaned_at(lock, host, running, now, threshold_secs),
{
}

} // verus!
