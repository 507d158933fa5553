//! Tiered link-recovery state machine. Pure: all decisions are functions of
//! injected instants (milliseconds on a monotonic clock) — no clocks, no I/O,
//! no sleeps.
//!
//! Tier 1 (re-acquire): sustained PWM dropout → re-run channel acquisition.
//! Tier 2 (reconnect): repeated Tier-1 failure → full dongle reconnect.
//!
//! ## Caller contract
//! `poll()` COMMITS on return: a non-Idle Action is already recorded
//! (cooldown stamped, counter bumped, dropout window cleared) — the caller
//! MUST execute it. `Reacquire` MUST be followed by `on_tier1_result(ok)`
//! on ALL paths including errors, then `on_acquired(now)` on success.
//! `Reconnect` has no result call — a failed reconnect re-escalates through
//! fresh dropout → Tier-1-failure cycles.
//!
//! ## Clock semantics
//! Instants are milliseconds of a monotonic clock; an instant earlier than a
//! stamp counts as zero elapsed time (as `Instant::duration_since` saturates).

use vstd::prelude::*;
use std::collections::VecDeque;
use crate::config::ReliabilityConfig;

verus! {

/// What the supervisor must do now.
#[derive(Debug, Clone, Copy, PartialEq, Eq, Structural)]
pub enum Action {
    /// Nothing to do.
    Idle,
    /// Tier 1: reset + re-run acquisition + re-apply state.
    Reacquire,
    /// Tier 2: drop and reopen the dongle transports, full rediscovery.
    Reconnect,
}

/// Read-only telemetry snapshot for IPC/status surfaces.
#[derive(Debug, Clone, Copy, PartialEq, Eq, Structural)]
pub struct Telemetry {
    pub total_dropouts: u64,
    pub total_tier1: u64,
    pub total_tier2: u64,
    pub failed_tier1_streak: u32,
    /// Zero-readback windows whose fan RPM ramped well above the healthy
    /// baseline — the user-audible surge the watchdog exists to catch.
    pub total_surges: u64,
    pub last_surge_peak_rpm: u16,
}

/// Milliseconds from `t` to `now` (zero when `now` is earlier).
pub open spec fn elapsed(now: u64, t: u64) -> int {
    if now >= t {
        now - t
    } else {
        0
    }
}

/// Whether at least `secs` seconds passed from `t` to `now`.
pub open spec fn passed(now: u64, t: u64, secs: u64) -> bool {
    elapsed(now, t) >= secs as int * 1000
}

fn passed_exec(now: u64, t: u64, secs: u64) -> (b: bool)
    ensures
        b == passed(now, t, secs),
{
    let e: u64 = if now >= t {
        now - t
    } else {
        0
    };
    e as u128 >= secs as u128 * 1000
}

fn older_than_exec(now: u64, t: u64, secs: u64) -> (b: bool)
    ensures
        b == (elapsed(now, t) > secs as int * 1000),
{
    let e: u64 = if now >= t {
        now - t
    } else {
        0
    };
    e as u128 > secs as u128 * 1000
}

/// Dropout stamps still inside the window at `now`: stamps are dropped from
/// the front while more than the window has passed since them.
pub open spec fn pruned(ds: Seq<u64>, now: u64, window_s: u64) -> Seq<u64>
    decreases ds.len(),
{
    if ds.len() > 0 && elapsed(now, ds[0]) > window_s as int * 1000 {
        pruned(ds.drop_first(), now, window_s)
    } else {
        ds
    }
}

/// The whole state of the recovery machine.
pub ghost struct ReliabilityModel {
    pub grace_s: u64,
    pub dropout_threshold: u32,
    pub window_s: u64,
    pub tier1_cooldown_s: u64,
    pub tier2_cooldown_s: u64,
    pub tier2_after_failed_tier1: u32,
    pub dropouts: Seq<u64>,
    pub acquired_at: Option<u64>,
    pub last_tier1: Option<u64>,
    pub last_tier2: Option<u64>,
    pub failed_tier1_streak: u32,
    pub total_dropouts: u64,
    pub total_tier1: u64,
    pub total_tier2: u64,
    pub total_surges: u64,
    pub last_surge_peak_rpm: u16,
}

/// The decision `poll(now)` takes and the state it leaves.
pub open spec fn poll_spec(m: ReliabilityModel, now: u64) -> (ReliabilityModel, Action) {
    let ds = pruned(m.dropouts, now, m.window_s);
    let m1 = ReliabilityModel { dropouts: ds, ..m };
    if m.failed_tier1_streak >= m.tier2_after_failed_tier1 {
        let cooled = match m.last_tier2 {
            None => true,
            Some(t) => passed(now, t, m.tier2_cooldown_s),
        };
        if cooled {
            (
                ReliabilityModel {
                    last_tier2: Some(now),
                    total_tier2: (m.total_tier2 + 1) as u64,
                    failed_tier1_streak: 0,
                    dropouts: Seq::empty(),
                    ..m
                },
                Action::Reconnect,
            )
        } else {
            (m1, Action::Idle)
        }
    } else {
        let in_grace = match m.acquired_at {
            None => true,
            Some(t) => !passed(now, t, m.grace_s),
        };
        let cooled = match m.last_tier1 {
            None => true,
            Some(t) => passed(now, t, m.tier1_cooldown_s),
        };
        if in_grace || ds.len() < m.dropout_threshold || !cooled {
            (m1, Action::Idle)
        } else {
            (
                ReliabilityModel {
                    last_tier1: Some(now),
                    total_tier1: (m.total_tier1 + 1) as u64,
                    dropouts: Seq::empty(),
                    ..m
                },
                Action::Reacquire,
            )
        }
    }
}

/// The machine's thresholds are usable: at least one dropout makes a
/// storm and at least one failed Tier 1 escalates (as `new` guarantees).
pub open spec fn model_wf(m: ReliabilityModel) -> bool {
    m.dropout_threshold >= 1 && m.tier2_after_failed_tier1 >= 1
}

/// Law: a machine that never acquired a link never fires Tier 1 —
/// dropouts before any acquisition are not meaningful.
pub proof fn lemma_never_acquired_never_reacquires(m: ReliabilityModel, now: u64)
    requires
        m.acquired_at is None,
    ensures
        poll_spec(m, now).1 != Action::Reacquire,
{
}

/// Law: within the grace period after an acquisition, Tier 1 never fires.
pub proof fn lemma_grace_suppresses_tier1(m: ReliabilityModel, now: u64)
    requires
        m.acquired_at matches Some(t) && !passed(now, t, m.grace_s),
    ensures
        poll_spec(m, now).1 != Action::Reacquire,
{
}

/// Law: fewer dropouts inside the window than the threshold never fire Tier 1.
pub proof fn lemma_below_threshold_never_reacquires(m: ReliabilityModel, now: u64)
    requires
        pruned(m.dropouts, now, m.window_s).len() < m.dropout_threshold,
    ensures
        poll_spec(m, now).1 != Action::Reacquire,
{
}

/// Law: a poll commits its action — a fired Tier 1 has stamped its cooldown,
/// counted itself and cleared the dropout window, so polling again (with no
/// new dropouts) cannot fire Tier 1 again.
pub proof fn lemma_reacquire_commits(m: ReliabilityModel, now: u64, later: u64)
    requires
        model_wf(m),
        m.total_tier1 < u64::MAX,
        poll_spec(m, now).1 == Action::Reacquire,
    ensures
        poll_spec(m, now).0.last_tier1 == Some(now),
        poll_spec(m, now).0.total_tier1 == m.total_tier1 + 1,
        poll_spec(m, now).0.dropouts.len() == 0,
        poll_spec(poll_spec(m, now).0, later).1 != Action::Reacquire,
{
    let m2 = poll_spec(m, now).0;
    assert(pruned(m2.dropouts, later, m2.window_s) == m2.dropouts);
}

/// Law: a fired Tier 2 resets the escalation streak, so with no further
/// failed Tier-1 attempts the next poll never reconnects again.
pub proof fn lemma_reconnect_commits(m: ReliabilityModel, now: u64, later: u64)
    requires
        model_wf(m),
        m.total_tier2 < u64::MAX,
        poll_spec(m, now).1 == Action::Reconnect,
    ensures
        poll_spec(m, now).0.failed_tier1_streak == 0,
        poll_spec(m, now).0.last_tier2 == Some(now),
        poll_spec(m, now).0.total_tier2 == m.total_tier2 + 1,
        poll_spec(poll_spec(m, now).0, later).1 != Action::Reconnect,
{
}

/// Law: enough failed Tier-1 attempts escalate to Tier 2 as soon as the
/// Tier-2 cooldown allows, whatever the dropout state.
pub proof fn lemma_failed_tier1_escalates(m: ReliabilityModel, now: u64)
    requires
        m.failed_tier1_streak >= m.tier2_after_failed_tier1,
        m.last_tier2 matches Some(t) ==> passed(now, t, m.tier2_cooldown_s),
    ensures
        poll_spec(m, now).1 == Action::Reconnect,
{
}

/// Law: a successful acquisition is recovery — right after it, the machine
/// stays quiet (no stale Reconnect, no Tier 1) until new evidence arrives.
pub proof fn lemma_acquired_machine_is_quiet(m: ReliabilityModel, t: u64, now: u64)
    requires
        model_wf(m),
    ensures
        poll_spec(
            ReliabilityModel { acquired_at: Some(t), dropouts: Seq::empty(), failed_tier1_streak: 0, ..m },
            now,
        ).1 == Action::Idle,
{
    let m2 = ReliabilityModel {
        acquired_at: Some(t),
        dropouts: Seq::empty(),
        failed_tier1_streak: 0,
        ..m
    };
    assert(pruned(m2.dropouts, now, m2.window_s) == m2.dropouts);
}

/// One call on the recovery machine, as a caller makes them.
pub ghost enum ReliabilityEvent {
    /// `on_acquired(now)`.
    Acquired(u64),
    /// `on_dropout(now)`.
    Dropout(u64),
    /// `on_surge(peak_rpm)`.
    Surge(u16),
    /// `poll(now)`.
    Poll(u64),
    /// `on_tier1_result(ok)`.
    Tier1Result(bool),
    /// `recent_dropouts(now)`.
    Recent(u64),
}

/// The state one call leaves (each method's contract states this).
pub open spec fn reliability_step(m: ReliabilityModel, e: ReliabilityEvent) -> ReliabilityModel {
    match e {
        ReliabilityEvent::Acquired(now) => ReliabilityModel {
            acquired_at: Some(now),
            dropouts: Seq::empty(),
            failed_tier1_streak: 0,
            ..m
        },
        ReliabilityEvent::Dropout(now) => ReliabilityModel {
            total_dropouts: (m.total_dropouts + 1) as u64,
            dropouts: pruned(m.dropouts.push(now), now, m.window_s),
            ..m
        },
        ReliabilityEvent::Surge(peak_rpm) => ReliabilityModel {
            total_surges: (m.total_surges + 1) as u64,
            last_surge_peak_rpm: peak_rpm,
            ..m
        },
        ReliabilityEvent::Poll(now) => poll_spec(m, now).0,
        ReliabilityEvent::Tier1Result(ok) => ReliabilityModel {
            failed_tier1_streak: if ok {
                0
            } else {
                (m.failed_tier1_streak + 1) as u32
            },
            ..m
        },
        ReliabilityEvent::Recent(now) => ReliabilityModel {
            dropouts: pruned(m.dropouts, now, m.window_s),
            ..m
        },
    }
}

/// The state a run of calls leaves.
pub open spec fn reliability_run(m: ReliabilityModel, evs: Seq<ReliabilityEvent>) -> ReliabilityModel
    decreases evs.len(),
{
    if evs.len() == 0 {
        m
    } else {
        reliability_step(reliability_run(m, evs.drop_last()), evs.last())
    }
}

/// Every call keeps the machine's thresholds, so a machine built by `new`
/// stays well-formed whatever calls follow.
pub proof fn lemma_run_keeps_wf(m: ReliabilityModel, evs: Seq<ReliabilityEvent>)
    requires
        model_wf(m),
    ensures
        model_wf(reliability_run(m, evs)),
    decreases evs.len(),
{
    if evs.len() > 0 {
        lemma_run_keeps_wf(m, evs.drop_last());
    }
}

proof fn lemma_run_keeps_streak_zero(m: ReliabilityModel, evs: Seq<ReliabilityEvent>)
    requires
        model_wf(m),
        m.failed_tier1_streak == 0,
        forall|i: int| 0 <= i < evs.len() ==> #[trigger] evs[i] != ReliabilityEvent::Tier1Result(false),
    ensures
        model_wf(reliability_run(m, evs)),
        reliability_run(m, evs).failed_tier1_streak == 0,
    decreases evs.len(),
{
    if evs.len() > 0 {
        let d = evs.drop_last();
        assert forall|i: int| 0 <= i < d.len() implies #[trigger] d[i] != ReliabilityEvent::Tier1Result(
            false,
        ) by {
            assert(d[i] == evs[i]);
        }
        lemma_run_keeps_streak_zero(m, d);
        assert(evs[evs.len() - 1] != ReliabilityEvent::Tier1Result(false));
    }
}

/// Law: an acquisition clears the escalation for good — after
/// `on_acquired`, no `poll` returns `Reconnect` until a failed Tier-1
/// attempt is reported again (`on_tier1_result(false)`), whatever other
/// calls come in between.
pub proof fn lemma_no_reconnect_until_failed_tier1(
    m: ReliabilityModel,
    t: u64,
    evs: Seq<ReliabilityEvent>,
    now: u64,
)
    requires
        model_wf(m),
        forall|i: int| 0 <= i < evs.len() ==> #[trigger] evs[i] != ReliabilityEvent::Tier1Result(false),
    ensures
        poll_spec(
            reliability_run(reliability_step(m, ReliabilityEvent::Acquired(t)), evs),
            now,
        ).1 != Action::Reconnect,
{
    lemma_run_keeps_streak_zero(reliability_step(m, ReliabilityEvent::Acquired(t)), evs);
}

/// Whether every poll among `evs` is at a time in `[lo, hi)`.
pub open spec fn polls_within(evs: Seq<ReliabilityEvent>, lo: int, hi: int) -> bool {
    forall|i: int|
        0 <= i < evs.len() ==> match #[trigger] evs[i] {
            ReliabilityEvent::Poll(x) => lo <= x < hi,
            _ => true,
        }
}

proof fn lemma_tier1_stamp_step(m: ReliabilityModel, t: u64, e: ReliabilityEvent)
    requires
        m.last_tier1 == Some(t),
        match e {
            ReliabilityEvent::Poll(x) => t <= x < t + m.tier1_cooldown_s * 1000,
            _ => true,
        },
    ensures
        reliability_step(m, e).last_tier1 == Some(t),
        reliability_step(m, e).tier1_cooldown_s == m.tier1_cooldown_s,
        e matches ReliabilityEvent::Poll(x) ==> poll_spec(m, x).1 != Action::Reacquire,
{
}

proof fn lemma_tier1_stamp_kept(m: ReliabilityModel, t: u64, evs: Seq<ReliabilityEvent>)
    requires
        m.last_tier1 == Some(t),
        polls_within(evs, t as int, t + m.tier1_cooldown_s * 1000),
    ensures
        reliability_run(m, evs).last_tier1 == Some(t),
        reliability_run(m, evs).tier1_cooldown_s == m.tier1_cooldown_s,
        forall|i: int|
            0 <= i < evs.len() ==> match #[trigger] evs[i] {
                ReliabilityEvent::Poll(x) => poll_spec(reliability_run(m, evs.take(i)), x).1
                    != Action::Reacquire,
                _ => true,
            },
    decreases evs.len(),
{
    if evs.len() > 0 {
        let d = evs.drop_last();
        assert forall|i: int| 0 <= i < d.len() implies match #[trigger] d[i] {
            ReliabilityEvent::Poll(x) => t <= x < t + m.tier1_cooldown_s * 1000,
            _ => true,
        } by {
            assert(d[i] == evs[i]);
        }
        lemma_tier1_stamp_kept(m, t, d);
        let prev = reliability_run(m, d);
        let last = evs[evs.len() - 1];
        assert(match last {
            ReliabilityEvent::Poll(x) => t <= x < t + m.tier1_cooldown_s * 1000,
            _ => true,
        });
        lemma_tier1_stamp_step(prev, t, last);
        assert(evs.take(evs.len() - 1) =~= d);
        assert forall|i: int| 0 <= i < evs.len() implies match #[trigger] evs[i] {
            ReliabilityEvent::Poll(x) => poll_spec(reliability_run(m, evs.take(i)), x).1
                != Action::Reacquire,
            _ => true,
        } by {
            if i < d.len() {
                assert(evs.take(i) =~= d.take(i));
                assert(evs[i] == d[i]);
            }
        }
    }
}

/// Law: Tier 1 never fires twice within its cooldown. Once a poll at `now`
/// fires Tier 1, whatever calls follow — dropouts, surges, acquisitions,
/// Tier-1 reports, other polls — no poll made before `tier1_cooldown_s`
/// seconds have passed since `now` fires it again.
pub proof fn lemma_tier1_cooldown(
    m: ReliabilityModel,
    now: u64,
    evs: Seq<ReliabilityEvent>,
    later: u64,
)
    requires
        poll_spec(m, now).1 == Action::Reacquire,
        polls_within(evs, now as int, now + m.tier1_cooldown_s * 1000),
        now <= later,
        later < now + m.tier1_cooldown_s * 1000,
    ensures
        forall|i: int|
            0 <= i < evs.len() ==> match #[trigger] evs[i] {
                ReliabilityEvent::Poll(x) => poll_spec(
                    reliability_run(poll_spec(m, now).0, evs.take(i)),
                    x,
                ).1 != Action::Reacquire,
                _ => true,
            },
        poll_spec(reliability_run(poll_spec(m, now).0, evs), later).1 != Action::Reacquire,
{
    let m2 = poll_spec(m, now).0;
    lemma_tier1_stamp_kept(m2, now, evs);
}

/// The recovery state machine.
#[derive(Debug)]
pub struct Reliability {
    limits: Limits,
    dropouts: VecDeque<u64>,
    acquired_at: Option<u64>,
    last_tier1: Option<u64>,
    last_tier2: Option<u64>,
    failed_tier1_streak: u32,
    total_dropouts: u64,
    total_tier1: u64,
    total_tier2: u64,
    total_surges: u64,
    last_surge_peak_rpm: u16,
}

/// The recovery machine's configured limits, fixed for its lifetime.
#[derive(Debug)]
struct Limits {
    grace_s: u64,
    dropout_threshold: u32,
    window_s: u64,
    tier1_cooldown_s: u64,
    tier2_cooldown_s: u64,
    tier2_after_failed_tier1: u32,
}

impl Limits {
    /// The thresholds are usable: at least one dropout makes a storm and at
    /// least one failed Tier 1 escalates.
    #[verifier::type_invariant]
    spec fn thresholds_usable(self) -> bool {
        self.dropout_threshold >= 1 && self.tier2_after_failed_tier1 >= 1
    }
}

impl Reliability {
    /// The machine's state as a mathematical value.
    pub closed spec fn model(&self) -> ReliabilityModel {
        ReliabilityModel {
            grace_s: self.limits.grace_s,
            dropout_threshold: self.limits.dropout_threshold,
            window_s: self.limits.window_s,
            tier1_cooldown_s: self.limits.tier1_cooldown_s,
            tier2_cooldown_s: self.limits.tier2_cooldown_s,
            tier2_after_failed_tier1: self.limits.tier2_after_failed_tier1,
            dropouts: self.dropouts@,
            acquired_at: self.acquired_at,
            last_tier1: self.last_tier1,
            last_tier2: self.last_tier2,
            failed_tier1_streak: self.failed_tier1_streak,
            total_dropouts: self.total_dropouts,
            total_tier1: self.total_tier1,
            total_tier2: self.total_tier2,
            total_surges: self.total_surges,
            last_surge_peak_rpm: self.last_surge_peak_rpm,
        }
    }

    /// A fresh machine: thresholds from the config (threshold and escalation
    /// count at least 1), never acquired, no history.
    pub fn new(cfg: &ReliabilityConfig) -> (r: Reliability)
        ensures
            model_wf(r.model()),
            r.model() == (ReliabilityModel {
                grace_s: cfg.grace_s,
                dropout_threshold: if cfg.dropout_threshold == 0 {
                    1
                } else {
                    cfg.dropout_threshold
                },
                window_s: cfg.window_s,
                tier1_cooldown_s: cfg.tier1_cooldown_s,
                tier2_cooldown_s: cfg.tier2_cooldown_s,
                tier2_after_failed_tier1: if cfg.tier2_after_failed_tier1 == 0 {
                    1
                } else {
                    cfg.tier2_after_failed_tier1
                },
                dropouts: Seq::empty(),
                acquired_at: None,
                last_tier1: None,
                last_tier2: None,
                failed_tier1_streak: 0,
                total_dropouts: 0,
                total_tier1: 0,
                total_tier2: 0,
                total_surges: 0,
                last_surge_peak_rpm: 0,
            }),
    {
        Reliability {
            limits: Limits {
                grace_s: cfg.grace_s,
                dropout_threshold: if cfg.dropout_threshold == 0 {
                    1
                } else {
                    cfg.dropout_threshold
                },
                window_s: cfg.window_s,
                tier1_cooldown_s: cfg.tier1_cooldown_s,
                tier2_cooldown_s: cfg.tier2_cooldown_s,
                tier2_after_failed_tier1: if cfg.tier2_after_failed_tier1 == 0 {
                    1
                } else {
                    cfg.tier2_after_failed_tier1
                },
            },
            dropouts: VecDeque::new(),
            acquired_at: None,
            last_tier1: None,
            last_tier2: None,
            failed_tier1_streak: 0,
            total_dropouts: 0,
            total_tier1: 0,
            total_tier2: 0,
            total_surges: 0,
            last_surge_peak_rpm: 0,
        }
    }

    /// Call after every successful acquisition (startup or recovery).
    /// Starts the grace period and clears transient state.
    /// Also clears the failed-tier1 escalation streak: a successful
    /// acquisition IS recovery.
    pub fn on_acquired(&mut self, now: u64)
        ensures
            model_wf(old(self).model()),
            model_wf(final(self).model()),
            final(self).model() == (ReliabilityModel {
                acquired_at: Some(now),
                dropouts: Seq::empty(),
                failed_tier1_streak: 0,
                ..old(self).model()
            }),
            final(self).model() == reliability_step(old(self).model(), ReliabilityEvent::Acquired(now)),
    {
        proof {
            use_type_invariant(&self.limits);
        }
        self.acquired_at = Some(now);
        self.dropouts.clear();
        self.failed_tier1_streak = 0;
    }

    /// Record one surge: a zero-readback window whose peak RPM ran away from
    /// the healthy baseline (fans audibly spun up).
    pub fn on_surge(&mut self, peak_rpm: u16)
        requires
            old(self).model().total_surges < u64::MAX,
        ensures
            model_wf(old(self).model()),
            model_wf(final(self).model()),
            final(self).model() == (ReliabilityModel {
                total_surges: (old(self).model().total_surges + 1) as u64,
                last_surge_peak_rpm: peak_rpm,
                ..old(self).model()
            }),
            final(self).model() == reliability_step(old(self).model(), ReliabilityEvent::Surge(peak_rpm)),
    {
        proof {
            use_type_invariant(&self.limits);
        }
        self.total_surges += 1;
        self.last_surge_peak_rpm = peak_rpm;
    }

    /// Record one dropout observation (commanded PWM present, readback all-zero).
    pub fn on_dropout(&mut self, now: u64)
        requires
            old(self).model().total_dropouts < u64::MAX,
        ensures
            model_wf(old(self).model()),
            model_wf(final(self).model()),
            final(self).model() == (ReliabilityModel {
                total_dropouts: (old(self).model().total_dropouts + 1) as u64,
                dropouts: pruned(old(self).model().dropouts.push(now), now, old(self).model().window_s),
                ..old(self).model()
            }),
            final(self).model() == reliability_step(old(self).model(), ReliabilityEvent::Dropout(now)),
    {
        proof {
            use_type_invariant(&self.limits);
        }
        self.total_dropouts += 1;
        self.dropouts.push_back(now);
        self.prune(now);
    }

    /// Decide what (if anything) to do right now (see [`poll_spec`]).
    pub fn poll(&mut self, now: u64) -> (a: Action)
        requires
            old(self).model().total_tier1 < u64::MAX,
            old(self).model().total_tier2 < u64::MAX,
        ensures
            model_wf(old(self).model()),
            model_wf(final(self).model()),
            (final(self).model(), a) == poll_spec(old(self).model(), now),
            final(self).model() == reliability_step(old(self).model(), ReliabilityEvent::Poll(now)),
            a == Action::Reacquire ==> (old(self).model().last_tier1 matches Some(t) ==> (if now >= t {
                now - t
            } else {
                0
            }) >= old(self).model().tier1_cooldown_s * 1000),
    {
        proof {
            use_type_invariant(&self.limits);
        }
        self.prune(now);

        // Escalation: enough failed Tier-1 attempts → Tier 2, respecting cooldown.
        if self.failed_tier1_streak >= self.limits.tier2_after_failed_tier1 {
            let cooled = match self.last_tier2 {
                None => true,
                Some(t) => passed_exec(now, t, self.limits.tier2_cooldown_s),
            };
            if cooled {
                self.last_tier2 = Some(now);
                self.total_tier2 += 1;
                self.failed_tier1_streak = 0;
                self.dropouts.clear();
                return Action::Reconnect;
            }
            return Action::Idle;  // wait out the cooldown
        }

        // Tier 1: threshold within window, after grace, respecting cooldown.
        let in_grace = match self.acquired_at {
            None => true,
            Some(t) => !passed_exec(now, t, self.limits.grace_s),
        };
        if in_grace {
            return Action::Idle;
        }
        if (self.dropouts.len() as u64) < self.limits.dropout_threshold as u64 {
            return Action::Idle;
        }
        let cooled = match self.last_tier1 {
            None => true,
            Some(t) => passed_exec(now, t, self.limits.tier1_cooldown_s),
        };
        if !cooled {
            return Action::Idle;
        }
        self.last_tier1 = Some(now);
        self.total_tier1 += 1;
        self.dropouts.clear();
        Action::Reacquire
    }

    /// Report how the executed Tier-1 attempt went. Success resets the streak
    /// AND restarts the grace period (via on_acquired, called by the executor).
    /// Call exactly once per executed Reacquire.
    pub fn on_tier1_result(&mut self, ok: bool)
        requires
            ok || old(self).model().failed_tier1_streak < u32::MAX,
        ensures
            model_wf(old(self).model()),
            model_wf(final(self).model()),
            final(self).model() == (ReliabilityModel {
                failed_tier1_streak: if ok {
                    0
                } else {
                    (old(self).model().failed_tier1_streak + 1) as u32
                },
                ..old(self).model()
            }),
            final(self).model() == reliability_step(old(self).model(), ReliabilityEvent::Tier1Result(ok)),
    {
        proof {
            use_type_invariant(&self.limits);
        }
        if ok {
            self.failed_tier1_streak = 0;
        } else {
            self.failed_tier1_streak += 1;
        }
    }

    /// Dropouts currently inside the window (telemetry).
    pub fn recent_dropouts(&mut self, now: u64) -> (n: u32)
        ensures
            model_wf(old(self).model()),
            model_wf(final(self).model()),
            final(self).model() == (ReliabilityModel {
                dropouts: pruned(old(self).model().dropouts, now, old(self).model().window_s),
                ..old(self).model()
            }),
            final(self).model() == reliability_step(old(self).model(), ReliabilityEvent::Recent(now)),
            n as int == if final(self).model().dropouts.len() > u32::MAX {
                u32::MAX as int
            } else {
                final(self).model().dropouts.len() as int
            },
    {
        proof {
            use_type_invariant(&self.limits);
        }
        self.prune(now);
        if self.dropouts.len() > u32::MAX as usize {
            u32::MAX
        } else {
            self.dropouts.len() as u32
        }
    }

    /// Read-only counters.
    pub fn telemetry(&self) -> (t: Telemetry)
        ensures
            model_wf(self.model()),
            t == (Telemetry {
                total_dropouts: self.model().total_dropouts,
                total_tier1: self.model().total_tier1,
                total_tier2: self.model().total_tier2,
                failed_tier1_streak: self.model().failed_tier1_streak,
                total_surges: self.model().total_surges,
                last_surge_peak_rpm: self.model().last_surge_peak_rpm,
            }),
    {
        proof {
            use_type_invariant(&self.limits);
        }
        Telemetry {
            total_dropouts: self.total_dropouts,
            total_tier1: self.total_tier1,
            total_tier2: self.total_tier2,
            failed_tier1_streak: self.failed_tier1_streak,
            total_surges: self.total_surges,
            last_surge_peak_rpm: self.last_surge_peak_rpm,
        }
    }

    /// Drop dropout stamps that left the window.
    fn prune(&mut self, now: u64)
        ensures
            final(self).model() == (ReliabilityModel {
                dropouts: pruned(old(self).model().dropouts, now, old(self).model().window_s),
                ..old(self).model()
            }),
    {
        loop
            invariant
                pruned(self.dropouts@, now, self.limits.window_s) == pruned(
                    old(self).dropouts@,
                    now,
                    old(self).limits.window_s,
                ),
                self.model() == (ReliabilityModel { dropouts: self.dropouts@, ..old(self).model() }),
            ensures
                self.dropouts@ == pruned(self.dropouts@, now, self.limits.window_s),
                self.model() == (ReliabilityModel { dropouts: self.dropouts@, ..old(self).model() }),
                pruned(self.dropouts@, now, self.limits.window_s) == pruned(
                    old(self).dropouts@,
                    now,
                    old(self).limits.window_s,
                ),
            decreases self.dropouts@.len(),
        {
            if self.dropouts.len() == 0 {
                break;
            }
            let front = self.dropouts[0];
            if older_than_exec(now, front, self.limits.window_s) {
                let ghost before = self.dropouts@;
                let _ = self.dropouts.pop_front();
                assert(self.dropouts@ =~= before.drop_first());
            } else {
                break;
            }
        }
    }
}

} // verus!
