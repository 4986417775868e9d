//! NOP keepalive, and the commands that wait for a session to come back.

use crate::clock::{duration_nanos, elapsed_nanos, shorter};
use crate::iscsi::config;
use bytes::Bytes;
use core::time::Duration;
use vstd::prelude::*;

verus! {

/// How long to sleep between two looks for a reply to a NOP-Out.
pub const POLL_MS: u64 = 100;

// ---------------------------------------------------------------------------
// RecoveryConfig
// ---------------------------------------------------------------------------

/// Configuration for NOP keepalive and session recovery behaviour.
#[derive(Clone, Copy, Debug)]
pub struct RecoveryConfig {
    /// Interval between NOP-Out keep-alive pings.
    pub noop_interval: Duration,
    /// How long to wait for a NOP-In reply before declaring timeout.
    pub noop_timeout: Duration,
    /// How long to attempt session recovery before giving up.
    pub replacement_timeout: Duration,
    /// Maximum number of login retries on connection failure.
    pub max_login_retries: u32,
    /// Delay between login retries.
    pub login_retry_delay: Duration,
}

impl RecoveryConfig {
    /// The configuration is that of `cfg`, whose times are in seconds.
    pub open spec fn is_of(self, cfg: config::RecoveryConfig) -> bool {
        &&& duration_nanos(self.noop_interval) == cfg.noop_interval_secs * 1_000_000_000
        &&& duration_nanos(self.noop_timeout) == cfg.noop_timeout_secs * 1_000_000_000
        &&& duration_nanos(self.replacement_timeout) == cfg.replacement_timeout_secs
            * 1_000_000_000
        &&& self.max_login_retries == cfg.max_login_retries
        &&& duration_nanos(self.login_retry_delay) == cfg.login_retry_delay_secs * 1_000_000_000
    }
}

impl Default for RecoveryConfig {
    fn default() -> (r: Self)
        ensures
            r.is_of(config::RecoveryConfig::defaults()),
    {
        Self {
            noop_interval: Duration::from_secs(5),
            noop_timeout: Duration::from_secs(5),
            replacement_timeout: Duration::from_secs(30),
            max_login_retries: 6,
            login_retry_delay: Duration::from_secs(5),
        }
    }
}

impl vstd::std_specs::convert::FromSpecImpl<config::RecoveryConfig> for RecoveryConfig {
    open spec fn obeys_from_spec() -> bool {
        false
    }

    open spec fn from_spec(cfg: config::RecoveryConfig) -> Self {
        arbitrary()
    }
}

impl From<config::RecoveryConfig> for RecoveryConfig {
    fn from(cfg: config::RecoveryConfig) -> (r: Self)
        ensures
            r.is_of(cfg),
    {
        Self {
            noop_interval: Duration::from_secs(cfg.noop_interval_secs),
            noop_timeout: Duration::from_secs(cfg.noop_timeout_secs),
            replacement_timeout: Duration::from_secs(cfg.replacement_timeout_secs),
            max_login_retries: cfg.max_login_retries,
            login_retry_delay: Duration::from_secs(cfg.login_retry_delay_secs),
        }
    }
}

// ---------------------------------------------------------------------------
// PendingCommand
// ---------------------------------------------------------------------------

/// A SCSI command that has been queued for (re-)submission after recovery.
/// Whoever waits for its response is known as `R`.
pub struct PendingCommand<R> {
    pub cdb: [u8; 16],
    pub lun: u64,
    pub edtl: u32,
    pub read: bool,
    pub write: bool,
    pub write_data: Option<Bytes>,
    pub reply: R,
    /// When the command was queued.
    pub queued_at: Duration,
}

// ---------------------------------------------------------------------------
// PendingQueue
// ---------------------------------------------------------------------------

/// Queue of SCSI commands waiting to be re-submitted after session recovery.
pub struct PendingQueue<R> {
    pub commands: Vec<PendingCommand<R>>,
}

/// A command has been queued for longer than `timeout`.
pub open spec fn is_expired<R>(cmd: PendingCommand<R>, now: Duration, timeout: Duration) -> bool {
    elapsed_nanos(now, cmd.queued_at) > duration_nanos(timeout)
}

impl<R> PendingQueue<R> {
    /// Create an empty queue.
    pub fn new() -> (r: Self)
        ensures
            r.commands@ == Seq::<PendingCommand<R>>::empty(),
    {
        Self { commands: Vec::new() }
    }

    /// Add a command to the queue.
    pub fn push(&mut self, cmd: PendingCommand<R>)
        ensures
            final(self).commands@ == old(self).commands@.push(cmd),
    {
        self.commands.push(cmd);
    }

    /// Returns true if the queue has no commands.
    pub fn is_empty(&self) -> (r: bool)
        ensures
            r == (self.commands@.len() == 0),
    {
        self.commands.len() == 0
    }

    /// Take all queued commands, leaving the queue empty.
    pub fn drain(&mut self) -> (r: Vec<PendingCommand<R>>)
        ensures
            r@ == old(self).commands@,
            final(self).commands@ == Seq::<PendingCommand<R>>::empty(),
    {
        let mut taken: Vec<PendingCommand<R>> = Vec::new();
        std::mem::swap(&mut taken, &mut self.commands);
        taken
    }

    /// Remove the commands that have been queued longer than `timeout`, and
    /// return them: they are to be failed.
    pub fn expire(&mut self, now: Duration, timeout: Duration) -> (r: Vec<PendingCommand<R>>)
        ensures
            r@ == old(self).commands@.filter(
                |cmd: PendingCommand<R>| is_expired(cmd, now, timeout),
            ),
            final(self).commands@ == old(self).commands@.filter(
                |cmd: PendingCommand<R>| !is_expired(cmd, now, timeout),
            ),
    {
        let ghost old_p = |cmd: PendingCommand<R>| is_expired(cmd, now, timeout);
        let ghost fresh_p = |cmd: PendingCommand<R>| !is_expired(cmd, now, timeout);
        let mut expired: Vec<PendingCommand<R>> = Vec::new();
        let mut kept: Vec<PendingCommand<R>> = Vec::new();
        let commands: Vec<PendingCommand<R>> = self.drain();
        let ghost all = commands@;
        proof {
            reveal(Seq::filter);
            assert(all.take(0) =~= seq![]);
        }
        for cmd in it: commands
            invariant
                it.seq() == all,
                old_p == (|cmd: PendingCommand<R>| is_expired(cmd, now, timeout)),
                fresh_p == (|cmd: PendingCommand<R>| !is_expired(cmd, now, timeout)),
                expired@ == all.take(it.index() as int).filter(old_p),
                kept@ == all.take(it.index() as int).filter(fresh_p),
        {
            proof {
                reveal(Seq::filter);
                let n = it.index() as int;
                assert(all.take(n + 1).drop_last() =~= all.take(n));
                assert(all.take(n + 1).last() == cmd);
            }
            if shorter(timeout, now.saturating_sub(cmd.queued_at)) {
                expired.push(cmd);
            } else {
                kept.push(cmd);
            }
        }
        assert(all.take(all.len() as int) =~= all);
        self.commands = kept;
        expired
    }

    /// Take all queued commands, each to be failed with the given error
    /// message.
    pub fn fail_all(&mut self, err_msg: &str) -> (r: Vec<(R, String)>)
        ensures
            r.len() == old(self).commands.len(),
            forall|i: int|
                0 <= i < r.len() ==> (#[trigger] r[i]).0 == old(self).commands[i].reply && r[i].1@
                    == err_msg@,
            final(self).commands@ == Seq::<PendingCommand<R>>::empty(),
    {
        let mut failed: Vec<(R, String)> = Vec::new();
        let commands: Vec<PendingCommand<R>> = self.drain();
        let ghost all = commands@;
        for cmd in it: commands
            invariant
                it.seq() == all,
                failed.len() == it.index(),
                forall|i: int|
                    0 <= i < failed.len() ==> (#[trigger] failed[i]).0 == all[i].reply
                        && failed[i].1@ == err_msg@,
        {
            failed.push((cmd.reply, err_msg.to_owned()));
        }
        failed
    }
}

/// Every command that was queued is either still queued or expired, and none is
/// both: nothing is lost, and nothing is answered twice.
pub proof fn expire_splits_the_queue<R>(
    commands: Seq<PendingCommand<R>>,
    now: Duration,
    timeout: Duration,
)
    ensures
        ({
            let expired = commands.filter(|cmd: PendingCommand<R>| is_expired(cmd, now, timeout));
            let kept = commands.filter(|cmd: PendingCommand<R>| !is_expired(cmd, now, timeout));
            &&& commands.to_multiset() =~= expired.to_multiset().add(kept.to_multiset())
            &&& expired.len() + kept.len() == commands.len()
        }),
    decreases commands.len(),
{
    broadcast use vstd::seq_lib::group_to_multiset_ensures;

    reveal(Seq::filter);
    let old_p = |cmd: PendingCommand<R>| is_expired(cmd, now, timeout);
    let fresh_p = |cmd: PendingCommand<R>| !is_expired(cmd, now, timeout);
    if commands.len() > 0 {
        let first = commands.drop_last();
        expire_splits_the_queue(first, now, timeout);
        assert(commands =~= first.push(commands.last()));
        if is_expired(commands.last(), now, timeout) {
            assert(commands.filter(old_p) == first.filter(old_p).push(commands.last()));
            assert(commands.filter(fresh_p) == first.filter(fresh_p));
        } else {
            assert(commands.filter(old_p) == first.filter(old_p));
            assert(commands.filter(fresh_p) == first.filter(fresh_p).push(commands.last()));
        }
    }
}

/// A command expires once it has been queued for longer than the timeout, not
/// before, and stays expired from then on.
pub proof fn commands_expire_after_the_timeout<R>(
    cmd: PendingCommand<R>,
    now: Duration,
    later: Duration,
    timeout: Duration,
)
    ensures
        is_expired(cmd, now, timeout) <==> duration_nanos(now) > duration_nanos(cmd.queued_at)
            + duration_nanos(timeout),
        is_expired(cmd, now, timeout) && duration_nanos(now) <= duration_nanos(later)
            ==> is_expired(cmd, later, timeout),
{
}

/// The times of the configuration are taken as seconds, each for its own.
pub proof fn recovery_times_are_seconds(r: RecoveryConfig, cfg: config::RecoveryConfig)
    requires
        r.is_of(cfg),
    ensures
        duration_nanos(r.noop_interval) == cfg.noop_interval_secs * 1000 * 1000 * 1000,
        duration_nanos(r.noop_timeout) == cfg.noop_timeout_secs * 1000 * 1000 * 1000,
        duration_nanos(r.replacement_timeout) == cfg.replacement_timeout_secs * 1000 * 1000 * 1000,
        duration_nanos(r.login_retry_delay) == cfg.login_retry_delay_secs * 1000 * 1000 * 1000,
        r.max_login_retries == cfg.max_login_retries,
{
}

// ---------------------------------------------------------------------------
// RecoveryManager
// ---------------------------------------------------------------------------

/// What the keepalive task does next.
#[derive(Debug, Clone, Copy, PartialEq, Eq, Structural)]
pub enum KeepaliveStep {
    /// Sleep for the keepalive interval, then look how long the session has
    /// been idle.
    Sleep,
    /// Send a NOP-Out.
    SendNopOut,
    /// Sleep for [`POLL_MS`], then look again.
    Poll,
    /// No response came in time: warn, then go on as for `Sleep`.
    TimedOut,
}

/// The keepalive task: pings the target when the session has been idle, and
/// waits for any PDU to come in.
pub struct Keepalive {
    pub interval: Duration,
    pub timeout: Duration,
    /// When the last NOP-Out was sent.
    pub pinged: Duration,
    /// When waiting for a reply ends, in nanoseconds.
    pub deadline: u128,
}

/// The deadline of a wait that starts at `now`.
pub open spec fn deadline_of(now: Duration, timeout: Duration) -> int {
    let sum = duration_nanos(now) + duration_nanos(timeout);
    if sum <= u128::MAX {
        sum as int
    } else {
        u128::MAX as int
    }
}

impl Keepalive {
    pub fn new(interval: Duration, timeout: Duration) -> (r: Self)
        ensures
            r.interval == interval,
            r.timeout == timeout,
            duration_nanos(r.pinged) == 0,
            r.deadline == 0,
    {
        Self { interval, timeout, pinged: Duration::from_secs(0), deadline: 0 }
    }

    /// The task has slept for the interval, and the session has been idle for
    /// `idle`: ping it if that is longer than the interval.
    pub fn on_wake(&self, idle: Duration) -> (r: KeepaliveStep)
        ensures
            r == (if duration_nanos(idle) > duration_nanos(self.interval) {
                KeepaliveStep::SendNopOut
            } else {
                KeepaliveStep::Sleep
            }),
    {
        if shorter(self.interval, idle) {
            KeepaliveStep::SendNopOut
        } else {
            KeepaliveStep::Sleep
        }
    }

    /// Whether there is still time at `now`.
    fn waiting(&self, now: Duration) -> (r: KeepaliveStep)
        ensures
            r == (if duration_nanos(now) < self.deadline {
                KeepaliveStep::Poll
            } else {
                KeepaliveStep::TimedOut
            }),
    {
        if now.as_nanos() < self.deadline {
            KeepaliveStep::Poll
        } else {
            KeepaliveStep::TimedOut
        }
    }

    /// The NOP-Out was sent at `now`, or could not be sent.
    pub fn on_nop_out(&mut self, sent: bool, now: Duration) -> (r: KeepaliveStep)
        ensures
            !sent ==> r == KeepaliveStep::Sleep && *final(self) == *old(self),
            sent ==> {
                &&& final(self).interval == old(self).interval
                &&& final(self).timeout == old(self).timeout
                &&& final(self).pinged == now
                &&& final(self).deadline == deadline_of(now, old(self).timeout)
                &&& r == (if duration_nanos(now) < final(self).deadline {
                    KeepaliveStep::Poll
                } else {
                    KeepaliveStep::TimedOut
                })
            },
    {
        if !sent {
            return KeepaliveStep::Sleep;
        }
        self.pinged = now;
        self.deadline = now.as_nanos().saturating_add(self.timeout.as_nanos());
        self.waiting(now)
    }

    /// The task has looked again at `now`, when the session had been idle for
    /// `idle`: any PDU that came after the NOP-Out will do as a reply.
    pub fn on_poll(&self, idle: Duration, now: Duration) -> (r: KeepaliveStep)
        ensures
            r == (if duration_nanos(idle) < elapsed_nanos(now, self.pinged) {
                KeepaliveStep::Sleep
            } else if duration_nanos(now) < self.deadline {
                KeepaliveStep::Poll
            } else {
                KeepaliveStep::TimedOut
            }),
            r == KeepaliveStep::Sleep <==> duration_nanos(self.pinged) + duration_nanos(idle)
                < duration_nanos(now),
            r == KeepaliveStep::TimedOut ==> duration_nanos(now) >= self.deadline,
    {
        if shorter(idle, now.saturating_sub(self.pinged)) {
            return KeepaliveStep::Sleep;
        }
        self.waiting(now)
    }
}

/// Manages NOP keepalive probes and automatic session recovery.
pub struct RecoveryManager<R> {
    pub target_addr: String,
    pub config: RecoveryConfig,
    pub pending_queue: PendingQueue<R>,
}

impl<R> RecoveryManager<R> {
    /// Construct a new RecoveryManager.
    pub fn new(target_addr: String, config: RecoveryConfig) -> (r: Self)
        ensures
            r.target_addr == target_addr,
            r.config == config,
            r.pending_queue.commands@ == Seq::<PendingCommand<R>>::empty(),
    {
        Self { target_addr, config, pending_queue: PendingQueue::new() }
    }

    /// The keepalive task of the session, before it first sleeps.
    pub fn keepalive(&self) -> (r: Keepalive)
        ensures
            r.interval == self.config.noop_interval,
            r.timeout == self.config.noop_timeout,
            duration_nanos(r.pinged) == 0,
            r.deadline == 0,
    {
        Keepalive::new(self.config.noop_interval, self.config.noop_timeout)
    }

    /// Access the recovery configuration.
    pub fn config(&self) -> (r: &RecoveryConfig)
        ensures
            *r == self.config,
    {
        &self.config
    }
}

/// A ping is waited for as long as the timeout says: the wait is over at the
/// first moment at which that much time has passed.
pub proof fn ping_is_waited_for_until_the_timeout(sent: Duration, timeout: Duration, now: Duration)
    requires
        duration_nanos(sent) + duration_nanos(timeout) <= u128::MAX,
        duration_nanos(sent) <= duration_nanos(now),
    ensures
        duration_nanos(now) < deadline_of(sent, timeout) <==> duration_nanos(now) - duration_nanos(
            sent,
        ) < duration_nanos(timeout),
{
}

} // verus!
