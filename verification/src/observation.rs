//! Persistence filter turning raw GetDev readbacks into dropout observations
//! (single-poll blips are healthy-channel background noise; only
//! consecutive-poll readback loss while commanded is link trouble), and the
//! surge watchdog judging zero-readback windows against the RPM baseline.

use vstd::prelude::*;

verus! {

/// The streak after one more poll: one longer (saturating) when the poll
/// was commanded with all-zero readback, else broken.
pub open spec fn streak_after(streak: u32, in_window: bool) -> u32 {
    if in_window {
        if streak == u32::MAX {
            u32::MAX
        } else {
            (streak + 1) as u32
        }
    } else {
        0
    }
}

/// The streak length that counts as a dropout (a threshold of 0 acts as 1).
pub open spec fn dropout_threshold(threshold: u32) -> u32 {
    if threshold == 0 {
        1
    } else {
        threshold
    }
}

/// Per-device streak tracker. Feed it every GetDev poll result.
#[derive(Debug)]
pub struct DropoutFilter {
    streak: u32,
}

impl Default for DropoutFilter {
    fn default() -> (f: DropoutFilter)
        ensures
            f.spec_streak() == 0,
    {
        DropoutFilter { streak: 0 }
    }
}

impl DropoutFilter {
    /// Consecutive commanded polls whose readback was all zero.
    pub closed spec fn spec_streak(self) -> u32 {
        self.streak
    }

    /// `commanded`: we have nonzero desired PWM for at least one active slot.
    /// `readback_zero`: every active fan slot read back 0.
    /// Returns true when THIS poll should be reported as a dropout
    /// observation (i.e. streak has reached `threshold`, at least 1).
    pub fn observe(&mut self, commanded: bool, readback_zero: bool, threshold: u32) -> (dropout: bool)
        ensures
            final(self).spec_streak() == streak_after(old(self).spec_streak(), commanded && readback_zero),
            dropout == (commanded && readback_zero && final(self).spec_streak() >= dropout_threshold(
                threshold,
            )),
    {
        if commanded && readback_zero {
            self.streak = self.streak.saturating_add(1);
            let t = if threshold == 0 {
                1
            } else {
                threshold
            };
            self.streak >= t
        } else {
            self.streak = 0;
            false
        }
    }

    pub fn streak(&self) -> (s: u32)
        ensures
            s == self.spec_streak(),
    {
        self.streak
    }
}

/// A judged fan surge: a zero-readback window (plus the fan-inertia tail
/// after recovery) whose peak RPM ran away from the healthy baseline.
#[derive(Debug, Clone, Copy, PartialEq, Eq, Structural)]
pub struct Surge {
    pub peak_rpm: u16,
    pub baseline_rpm: u16,
}

/// How many post-recovery polls the tracker keeps peaking before judging.
/// The physical peak lands ~3s AFTER readback recovers (fan inertia) and
/// decays within ~5s; 8 one-second polls cover it with margin.
pub const SURGE_TAIL_POLLS: u8 = 8;

/// Peak ≥ ⅓ + 100 rpm above baseline = surge. Wide enough to ignore wobble
/// (871 vs 730 observed), tight enough to catch runaway-to-full (~2100).
pub open spec fn surge_judged(baseline: u16, peak: u16) -> bool {
    peak as int > baseline as int + baseline as int / 3 + 100
}

fn is_surge(baseline: u16, peak: u16) -> (b: bool)
    ensures
        b == surge_judged(baseline, peak),
{
    peak as u32 > baseline as u32 + baseline as u32 / 3 + 100
}

/// Where the surge watchdog is in an episode.
#[derive(Debug, Clone, Copy, PartialEq, Eq, Structural)]
pub enum SurgePhase {
    /// No episode; healthy polls refresh the baseline.
    Idle,
    /// Inside a zero-readback window.
    InWindow { peak: u16 },
    /// Window closed; still watching for the inertia peak.
    Tail { peak: u16, polls_left: u8 },
}

fn max_u16(a: u16, b: u16) -> (r: u16)
    ensures
        r == if a >= b { a } else { b },
{
    if a >= b {
        a
    } else {
        b
    }
}

/// One poll of the surge watchdog: next phase, next baseline, verdict.
pub open spec fn surge_step(
    phase: SurgePhase,
    baseline: u16,
    in_window: bool,
    max_rpm: u16,
) -> (SurgePhase, u16, Option<Surge>) {
    match phase {
        SurgePhase::Idle => if in_window {
            (SurgePhase::InWindow { peak: max_rpm }, baseline, None)
        } else {
            (SurgePhase::Idle, max_rpm, None)
        },
        SurgePhase::InWindow { peak } => {
            let p = if peak >= max_rpm { peak } else { max_rpm };
            if in_window {
                (SurgePhase::InWindow { peak: p }, baseline, None)
            } else {
                (SurgePhase::Tail { peak: p, polls_left: SURGE_TAIL_POLLS }, baseline, None)
            }
        },
        SurgePhase::Tail { peak, polls_left } => {
            let p = if peak >= max_rpm { peak } else { max_rpm };
            if in_window {
                (SurgePhase::InWindow { peak: p }, baseline, None)
            } else if polls_left <= 1 {
                (
                    SurgePhase::Idle,
                    baseline,
                    if surge_judged(baseline, p) {
                        Some(Surge { peak_rpm: p, baseline_rpm: baseline })
                    } else {
                        None
                    },
                )
            } else {
                (SurgePhase::Tail { peak: p, polls_left: (polls_left - 1) as u8 }, baseline, None)
            }
        },
    }
}

/// Per-device surge watchdog. Feed it every GetDev poll; it reports a
/// [`Surge`] when a dropout window (plus tail) peaked well above the healthy
/// baseline. The physical surge outlives the readback window (fan inertia),
/// so judgment happens SURGE_TAIL_POLLS after recovery, and a re-opened
/// window during the tail merges into the same surge episode.
///
/// Caller contract: call `reset()` whenever the commanded PWM changes
/// materially — a legitimate curve move looks like a surge otherwise.
#[derive(Debug)]
pub struct SurgeTracker {
    phase: SurgePhase,
    baseline: u16,
}

impl Default for SurgeTracker {
    fn default() -> (t: SurgeTracker)
        ensures
            t.spec_phase() == SurgePhase::Idle,
            t.spec_baseline() == 0,
    {
        SurgeTracker { phase: SurgePhase::Idle, baseline: 0 }
    }
}

impl SurgeTracker {
    pub closed spec fn spec_phase(self) -> SurgePhase {
        self.phase
    }

    /// The RPM of the last healthy poll before the current episode.
    pub closed spec fn spec_baseline(self) -> u16 {
        self.baseline
    }

    /// `commanded`/`readback_zero` as in [`DropoutFilter::observe`];
    /// `max_rpm` = the record's highest active-fan RPM this poll.
    pub fn observe(&mut self, commanded: bool, readback_zero: bool, max_rpm: u16) -> (r: Option<
        Surge,
    >)
        ensures
            ({
                let (p, b, v) = surge_step(
                    old(self).spec_phase(),
                    old(self).spec_baseline(),
                    commanded && readback_zero,
                    max_rpm,
                );
                &&& final(self).spec_phase() == p
                &&& final(self).spec_baseline() == b
                &&& r == v
            }),
            r matches Some(s) ==> surge_judged(s.baseline_rpm, s.peak_rpm)
                && s.baseline_rpm == old(self).spec_baseline(),
    {
        let in_window = commanded && readback_zero;
        match self.phase {
            SurgePhase::Idle => {
                if in_window {
                    self.phase = SurgePhase::InWindow { peak: max_rpm };
                } else {
                    self.baseline = max_rpm;
                }
                None
            },
            SurgePhase::InWindow { peak } => {
                let peak = max_u16(peak, max_rpm);
                self.phase = if in_window {
                    SurgePhase::InWindow { peak }
                } else {
                    SurgePhase::Tail { peak, polls_left: SURGE_TAIL_POLLS }
                };
                None
            },
            SurgePhase::Tail { peak, polls_left } => {
                let peak = max_u16(peak, max_rpm);
                if in_window {
                    // interference struck again mid-tail — same episode
                    self.phase = SurgePhase::InWindow { peak };
                    return None;
                }
                if polls_left <= 1 {
                    let baseline = self.baseline;
                    self.phase = SurgePhase::Idle;
                    // decayed rpm becomes the fresh baseline next poll
                    if is_surge(baseline, peak) {
                        return Some(Surge { peak_rpm: peak, baseline_rpm: baseline });
                    } else {
                        return None;
                    }
                }
                self.phase = SurgePhase::Tail { peak, polls_left: polls_left - 1 };
                None
            },
        }
    }

    /// Forget any in-flight episode (commanded PWM changed — curve move).
    pub fn reset(&mut self)
        ensures
            final(self).spec_phase() == SurgePhase::Idle,
            final(self).spec_baseline() == old(self).spec_baseline(),
    {
        self.phase = SurgePhase::Idle;
    }
}

/// Law: a zero-readback episode is judged exactly once, SURGE_TAIL_POLLS
/// healthy polls after the window closes: from the first healthy poll after
/// a window, `SURGE_TAIL_POLLS - 1` further healthy polls keep watching and
/// the next one returns to Idle with the verdict.
pub proof fn lemma_tail_judges_after_tail_polls(peak: u16, baseline: u16, rpm: u16, k: u8)
    requires
        1 <= k <= SURGE_TAIL_POLLS,
    ensures
        k > 1 ==> surge_step(SurgePhase::Tail { peak, polls_left: k }, baseline, false, rpm).0
            is Tail,
        k > 1 ==> surge_step(SurgePhase::Tail { peak, polls_left: k }, baseline, false, rpm).2
            is None,
        k == 1 ==> surge_step(SurgePhase::Tail { peak, polls_left: k }, baseline, false, rpm).0
            == SurgePhase::Idle,
        surge_step(SurgePhase::InWindow { peak }, baseline, false, rpm).0 == (SurgePhase::Tail {
            peak: if peak >= rpm {
                peak
            } else {
                rpm
            },
            polls_left: SURGE_TAIL_POLLS,
        }),
{
}

/// Law: a reported surge's peak is at least every RPM seen since the window
/// opened — the peak never decreases while an episode runs.
pub proof fn lemma_peak_monotone(phase: SurgePhase, baseline: u16, in_window: bool, rpm: u16)
    ensures
        ({
            let (p, _, v) = surge_step(phase, baseline, in_window, rpm);
            &&& (p matches SurgePhase::InWindow { peak } ==> peak >= rpm)
            &&& (p matches SurgePhase::Tail { peak, .. } ==> peak >= rpm)
            &&& (v matches Some(s) ==> s.peak_rpm >= rpm)
            &&& (phase matches SurgePhase::InWindow { peak: q } ==> (p matches SurgePhase::Tail {
                peak,
                ..
            } ==> peak >= q))
        }),
{
}

/// A run of polls through the surge watchdog, each poll given as (in a
/// zero-readback window, highest active-fan RPM): the phase and baseline it
/// ends in, and the verdict of every poll in order.
pub open spec fn surge_run(
    phase: SurgePhase,
    baseline: u16,
    polls: Seq<(bool, u16)>,
) -> (SurgePhase, u16, Seq<Option<Surge>>)
    decreases polls.len(),
{
    if polls.len() == 0 {
        (phase, baseline, Seq::empty())
    } else {
        let (p, b, vs) = surge_run(phase, baseline, polls.drop_last());
        let (p2, b2, v) = surge_step(p, b, polls.last().0, polls.last().1);
        (p2, b2, vs.push(v))
    }
}

/// The highest RPM among some polls (0 for none).
pub open spec fn rpm_peak(polls: Seq<(bool, u16)>) -> u16
    decreases polls.len(),
{
    if polls.len() == 0 {
        0
    } else {
        let m = rpm_peak(polls.drop_last());
        if m >= polls.last().1 {
            m
        } else {
            polls.last().1
        }
    }
}

/// Running two stretches of polls one after the other is running them as one.
pub proof fn lemma_surge_run_append(
    phase: SurgePhase,
    baseline: u16,
    a: Seq<(bool, u16)>,
    c: Seq<(bool, u16)>,
)
    ensures
        ({
            let (p1, b1, v1) = surge_run(phase, baseline, a);
            let (p2, b2, v2) = surge_run(p1, b1, c);
            surge_run(phase, baseline, a + c) == (p2, b2, v1 + v2)
        }),
    decreases c.len(),
{
    if c.len() == 0 {
        assert(a + c =~= a);
        let (p1, b1, v1) = surge_run(phase, baseline, a);
        assert(v1 + Seq::<Option<Surge>>::empty() =~= v1);
    } else {
        lemma_surge_run_append(phase, baseline, a, c.drop_last());
        assert((a + c).drop_last() =~= a + c.drop_last());
        assert((a + c).last() == c.last());
        let (p1, b1, v1) = surge_run(phase, baseline, a);
        let (q, bq, vq) = surge_run(p1, b1, c.drop_last());
        let (p2, b2, v) = surge_step(q, bq, c.last().0, c.last().1);
        assert(v1 + vq.push(v) =~= (v1 + vq).push(v));
    }
}

/// `n` polls with no verdict.
pub open spec fn no_verdicts(n: nat) -> Seq<Option<Surge>> {
    Seq::new(n, |i: int| None::<Surge>)
}

proof fn lemma_window_run(baseline: u16, w: Seq<(bool, u16)>)
    requires
        w.len() >= 1,
        forall|i: int| 0 <= i < w.len() ==> (#[trigger] w[i]).0,
    ensures
        surge_run(SurgePhase::Idle, baseline, w) == (
            SurgePhase::InWindow { peak: rpm_peak(w) },
            baseline,
            no_verdicts(w.len()),
        ),
    decreases w.len(),
{
    if w.len() == 1 {
        assert(w.drop_last() =~= Seq::<(bool, u16)>::empty());
        assert(no_verdicts(1) =~= Seq::<Option<Surge>>::empty().push(None));
    } else {
        let wd = w.drop_last();
        assert forall|i: int| 0 <= i < wd.len() implies (#[trigger] wd[i]).0 by {
            assert(wd[i] == w[i]);
        }
        lemma_window_run(baseline, wd);
        assert(w[w.len() - 1].0);
        assert(no_verdicts(wd.len()).push(None) =~= no_verdicts(w.len()));
    }
}

proof fn lemma_tail_run(peak: u16, baseline: u16, h: Seq<(bool, u16)>)
    requires
        1 <= h.len() <= SURGE_TAIL_POLLS,
        forall|i: int| 0 <= i < h.len() ==> !(#[trigger] h[i]).0,
    ensures
        surge_run(SurgePhase::InWindow { peak }, baseline, h) == (
            SurgePhase::Tail {
                peak: if peak >= rpm_peak(h) {
                    peak
                } else {
                    rpm_peak(h)
                },
                polls_left: (SURGE_TAIL_POLLS - (h.len() - 1)) as u8,
            },
            baseline,
            no_verdicts(h.len()),
        ),
    decreases h.len(),
{
    if h.len() == 1 {
        assert(h.drop_last() =~= Seq::<(bool, u16)>::empty());
        assert(no_verdicts(1) =~= Seq::<Option<Surge>>::empty().push(None));
        assert(!h[0].0);
    } else {
        let hd = h.drop_last();
        assert forall|i: int| 0 <= i < hd.len() implies !(#[trigger] hd[i]).0 by {
            assert(hd[i] == h[i]);
        }
        lemma_tail_run(peak, baseline, hd);
        assert(!h[h.len() - 1].0);
        assert(no_verdicts(hd.len()).push(None) =~= no_verdicts(h.len()));
    }
}

/// Law: one surge episode, start to finish. After a healthy poll at `base`
/// RPM (the baseline), a zero-readback window `w` of one or more polls and
/// then SURGE_TAIL_POLLS + 1 healthy polls `h`: no poll gives a verdict but
/// the last, which is a surge exactly when the episode's peak — the highest
/// RPM over the window and the healthy polls after it — is judged against
/// `base`; the watchdog is then idle again with baseline `base`.
pub proof fn lemma_surge_episode(
    baseline: u16,
    base: u16,
    w: Seq<(bool, u16)>,
    h: Seq<(bool, u16)>,
)
    requires
        w.len() >= 1,
        forall|i: int| 0 <= i < w.len() ==> (#[trigger] w[i]).0,
        h.len() == SURGE_TAIL_POLLS + 1,
        forall|i: int| 0 <= i < h.len() ==> !(#[trigger] h[i]).0,
    ensures
        ({
            let polls = seq![(false, base)] + w + h;
            let peak = rpm_peak(w + h);
            let (phase, b, vs) = surge_run(SurgePhase::Idle, baseline, polls);
            &&& phase == SurgePhase::Idle
            &&& b == base
            &&& vs.len() == polls.len()
            &&& forall|i: int| 0 <= i < vs.len() - 1 ==> #[trigger] vs[i] is None
            &&& vs.last() == if surge_judged(base, peak) {
                Some(Surge { peak_rpm: peak, baseline_rpm: base })
            } else {
                None
            }
        }),
{
    let pre = seq![(false, base)];
    assert(pre.drop_last() =~= Seq::<(bool, u16)>::empty());
    assert(surge_run(SurgePhase::Idle, baseline, pre) == (SurgePhase::Idle, base, no_verdicts(1))) by {
        assert(pre.drop_last() =~= Seq::<(bool, u16)>::empty());
        assert(pre.last() == (false, base));
        assert(surge_run(SurgePhase::Idle, baseline, pre.drop_last()) == (
            SurgePhase::Idle,
            baseline,
            Seq::<Option<Surge>>::empty(),
        ));
        assert(no_verdicts(1) =~= Seq::<Option<Surge>>::empty().push(None));
    }
    lemma_window_run(base, w);
    let hh = h.take(SURGE_TAIL_POLLS as int);
    assert forall|i: int| 0 <= i < hh.len() implies !(#[trigger] hh[i]).0 by {
        assert(hh[i] == h[i]);
    }
    lemma_tail_run(rpm_peak(w), base, hh);
    lemma_surge_run_append(SurgePhase::Idle, base, w, hh);
    lemma_rpm_peak_append(w, hh);
    assert(h =~= hh.push(h.last()));
    assert(w + h =~= (w + hh).push(h.last()));
    assert((w + h).drop_last() =~= w + hh);
    assert(!h.last().0);
    lemma_surge_run_append(SurgePhase::Idle, baseline, pre, w + h);
    assert(pre + w + h =~= pre + (w + h));
    let v = surge_run(SurgePhase::Idle, baseline, pre + (w + h)).2;
    assert(no_verdicts(w.len()) + no_verdicts(hh.len()) =~= no_verdicts((w + hh).len()));
    assert(no_verdicts(1) + no_verdicts((w + hh).len()).push(v.last()) =~= no_verdicts(
        (w + hh).len() + 1,
    ).push(v.last()));
}

/// The highest RPM over two stretches is the higher of the two.
pub proof fn lemma_rpm_peak_append(a: Seq<(bool, u16)>, c: Seq<(bool, u16)>)
    ensures
        rpm_peak(a + c) == if rpm_peak(a) >= rpm_peak(c) {
            rpm_peak(a)
        } else {
            rpm_peak(c)
        },
    decreases c.len(),
{
    if c.len() == 0 {
        assert(a + c =~= a);
    } else {
        lemma_rpm_peak_append(a, c.drop_last());
        assert((a + c).drop_last() =~= a + c.drop_last());
        assert((a + c).last() == c.last());
    }
}

} // verus!
