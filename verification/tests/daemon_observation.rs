use llw::config::ReliabilityConfig;
use llw::observation::{DropoutFilter, Surge, SurgeTracker, SURGE_TAIL_POLLS};
use llw::reliability::{Action, Reliability};

#[test]
fn single_poll_blips_are_filtered() {
    // A healthy run: two single blips and one 3-poll burst — with threshold
    // 2, only the burst's polls 2 and 3 count.
    let mut f = DropoutFilter::default();
    let mut observations = 0;
    // single blip
    if f.observe(true, true, 2) {
        observations += 1;
    }
    if f.observe(true, false, 2) {
        observations += 1;
    }
    // 3-poll burst
    if f.observe(true, true, 2) {
        observations += 1;
    }
    if f.observe(true, true, 2) {
        observations += 1;
    }
    if f.observe(true, true, 2) {
        observations += 1;
    }
    if f.observe(true, false, 2) {
        observations += 1;
    }
    // another single
    if f.observe(true, true, 2) {
        observations += 1;
    }
    if f.observe(true, false, 2) {
        observations += 1;
    }
    assert_eq!(observations, 2);
}

#[test]
fn sustained_loss_accumulates_fast() {
    // Sustained loss: every poll past the threshold reports.
    let mut f = DropoutFilter::default();
    let count = (0..10).filter(|_| f.observe(true, true, 2)).count();
    assert_eq!(count, 9); // polls 2..=10
    assert_eq!(f.streak(), 10);
}

#[test]
fn uncommanded_never_observes() {
    let mut f = DropoutFilter::default();
    assert!(!f.observe(false, true, 2));
    assert!(!f.observe(false, true, 2));
    assert_eq!(f.streak(), 0);
}

#[test]
fn recovery_resets_streak() {
    let mut f = DropoutFilter::default();
    f.observe(true, true, 2);
    f.observe(true, true, 2);
    assert_eq!(f.streak(), 2);
    f.observe(true, false, 2);
    assert_eq!(f.streak(), 0);
}

#[test]
fn threshold_zero_counts_every_commanded_zero_poll() {
    let mut f = DropoutFilter::default();
    assert!(f.observe(true, true, 0));
    assert!(f.observe(true, true, 1));
}

#[test]
fn surge_peaks_after_window_closes_is_caught() {
    // rpm is still low while readback is zeroed; the physical peak arrives
    // AFTER recovery (fan inertia).
    let mut t = SurgeTracker::default();
    assert_eq!(t.observe(true, false, 730), None); // baseline
    assert_eq!(t.observe(true, true, 725), None); // window opens, rpm low
    assert_eq!(t.observe(true, true, 728), None);
    assert_eq!(t.observe(true, false, 1567), None); // recovered; tail begins
    assert_eq!(t.observe(true, false, 1900), None); // inertia peak
    for _ in 0..(SURGE_TAIL_POLLS - 2) {
        assert_eq!(t.observe(true, false, 900), None);
    }
    let surge = t.observe(true, false, 760).expect("tail end must judge");
    assert_eq!(surge, Surge { peak_rpm: 1900, baseline_rpm: 730 });
    // fresh baseline after the episode
    assert_eq!(t.observe(true, false, 735), None);
    assert_eq!(t.observe(true, true, 730), None);
}

#[test]
fn quiet_window_is_not_a_surge() {
    let mut t = SurgeTracker::default();
    t.observe(true, false, 730);
    t.observe(true, true, 735);
    t.observe(true, true, 871); // wobble
    t.observe(true, false, 736);
    for _ in 0..(SURGE_TAIL_POLLS - 1) {
        assert_eq!(t.observe(true, false, 733), None);
    }
    assert_eq!(t.observe(true, false, 731), None, "871 vs 730 is wobble");
}

#[test]
fn reopened_window_merges_into_one_episode() {
    let mut t = SurgeTracker::default();
    t.observe(true, false, 730);
    t.observe(true, true, 725);
    t.observe(true, false, 1500); // tail
    t.observe(true, true, 1800); // struck again mid-tail — merge
    t.observe(true, false, 2000); // tail restarts
    let mut result = None;
    for _ in 0..SURGE_TAIL_POLLS {
        result = t.observe(true, false, 800);
        if result.is_some() {
            break;
        }
    }
    let surge = result.expect("merged episode must judge once");
    assert_eq!(surge.peak_rpm, 2000);
    assert_eq!(surge.baseline_rpm, 730);
}

#[test]
fn reset_aborts_the_episode() {
    let mut t = SurgeTracker::default();
    t.observe(true, false, 730);
    t.observe(true, true, 725);
    t.observe(true, false, 2000); // would be a surge...
    t.reset(); // ...but the commanded PWM changed (curve move)
    for _ in 0..=SURGE_TAIL_POLLS {
        assert_eq!(t.observe(true, false, 2000), None);
    }
}

#[test]
fn surge_threshold_is_a_third_plus_100() {
    // baseline 600: surge needs peak > 600 + 200 + 100 = 900
    let mut t = SurgeTracker::default();
    t.observe(true, false, 600);
    t.observe(true, true, 900);
    let mut judged = None;
    for _ in 0..=SURGE_TAIL_POLLS {
        judged = judged.or(t.observe(true, false, 600));
    }
    assert_eq!(judged, None);

    let mut t = SurgeTracker::default();
    t.observe(true, false, 600);
    t.observe(true, true, 901);
    let mut judged = None;
    for _ in 0..=SURGE_TAIL_POLLS {
        judged = judged.or(t.observe(true, false, 600));
    }
    assert_eq!(judged, Some(Surge { peak_rpm: 901, baseline_rpm: 600 }));
}

// --- reliability (times in milliseconds) ---

const T0: u64 = 1_000_000;

fn machine() -> Reliability {
    Reliability::new(&ReliabilityConfig::default())
}

/// t0 + seconds.
fn ts(s: u64) -> u64 {
    T0 + s * 1000
}

fn storm(r: &mut Reliability, start_s: u64, n: u32) {
    for i in 0..n {
        r.on_dropout(ts(start_s + i as u64));
    }
}

#[test]
fn grace_period_suppresses_tier1() {
    let mut r = machine();
    r.on_acquired(T0);
    storm(&mut r, 10, 10); // heavy storm right after acquisition
    assert_eq!(r.poll(ts(30)), Action::Idle); // still in 120s grace
}

#[test]
fn dropout_storm_after_grace_fires_tier1_once() {
    let mut r = machine();
    r.on_acquired(T0);
    storm(&mut r, 130, 5); // ≥5 within 60s window, after grace
    assert_eq!(r.poll(ts(135)), Action::Reacquire);
    // immediately after: events cleared + cooldown → no refire
    assert_eq!(r.poll(ts(136)), Action::Idle);
    assert_eq!(r.telemetry().total_tier1, 1);
}

#[test]
fn below_threshold_never_fires() {
    let mut r = machine();
    r.on_acquired(T0);
    storm(&mut r, 130, 4); // one short of threshold
    assert_eq!(r.poll(ts(135)), Action::Idle);
}

#[test]
fn window_pruning_forgets_old_dropouts() {
    let mut r = machine();
    r.on_acquired(T0);
    storm(&mut r, 130, 4);
    // 5th dropout arrives 70s later — the first 4 are outside the window
    r.on_dropout(ts(200));
    assert_eq!(r.poll(ts(201)), Action::Idle);
    assert_eq!(r.recent_dropouts(ts(201)), 1);
}

#[test]
fn tier1_cooldown_gates_refire() {
    let mut r = machine();
    r.on_acquired(T0);
    storm(&mut r, 130, 5);
    assert_eq!(r.poll(ts(135)), Action::Reacquire);
    r.on_tier1_result(true);
    r.on_acquired(ts(136)); // recovery restarts grace
    // new storm right away: suppressed by fresh grace
    storm(&mut r, 140, 5);
    assert_eq!(r.poll(ts(145)), Action::Idle);
    // after grace expires (136+120=256) AND cooldown passed → fires again
    storm(&mut r, 260, 5);
    assert_eq!(r.poll(ts(265)), Action::Reacquire);
}

#[test]
fn two_failed_tier1_escalate_to_tier2() {
    let mut r = machine();
    r.on_acquired(T0);
    storm(&mut r, 130, 5);
    assert_eq!(r.poll(ts(135)), Action::Reacquire);
    r.on_tier1_result(false); // acquisition failed — no on_acquired
    storm(&mut r, 200, 5); // cooldown (60s) passed by t=195
    assert_eq!(r.poll(ts(205)), Action::Reacquire);
    r.on_tier1_result(false);
    // streak = 2 → escalate regardless of dropout state
    assert_eq!(r.poll(ts(206)), Action::Reconnect);
    assert_eq!(r.telemetry().total_tier2, 1);
    // tier2 cooldown (300s) suppresses immediate repeat even if tier1 keeps failing
    r.on_tier1_result(false);
    r.on_tier1_result(false);
    assert_eq!(r.poll(ts(210)), Action::Idle);
    assert_eq!(r.poll(ts(520)), Action::Reconnect);
}

#[test]
fn successful_tier1_resets_escalation_streak() {
    let mut r = machine();
    r.on_acquired(T0);
    storm(&mut r, 130, 5);
    assert_eq!(r.poll(ts(135)), Action::Reacquire);
    r.on_tier1_result(false);
    r.on_tier1_result(true); // second attempt succeeded
    assert_eq!(r.poll(ts(300)), Action::Idle); // no escalation
}

#[test]
fn never_acquired_machine_never_fires() {
    let mut r = machine();
    // no on_acquired — dropouts before any acquisition are not meaningful
    storm(&mut r, 190, 10);
    assert_eq!(r.poll(ts(200)), Action::Idle);
}

#[test]
fn healthy_after_reconnect_stays_quiet() {
    let mut r = machine();
    r.on_acquired(T0);
    storm(&mut r, 130, 5);
    assert_eq!(r.poll(ts(135)), Action::Reacquire);
    r.on_tier1_result(false);
    storm(&mut r, 200, 5);
    assert_eq!(r.poll(ts(205)), Action::Reacquire);
    r.on_tier1_result(false);
    assert_eq!(r.poll(ts(206)), Action::Reconnect);
    // reconnect succeeded: fresh acquisition, healthy link
    r.on_acquired(ts(210));
    // long after every cooldown expired, a quiet machine stays quiet
    assert_eq!(r.poll(ts(900)), Action::Idle);
    assert_eq!(r.telemetry().total_tier2, 1);
}

#[test]
fn acquired_clears_escalation_streak() {
    // Two failed tier-1 attempts build a streak; then a successful
    // acquisition clears it. Polling well past all cooldowns with no
    // dropouts must stay quiet (no stale Reconnect).
    let cfg = ReliabilityConfig {
        grace_s: 0,
        tier1_cooldown_s: 0,
        tier2_cooldown_s: 0,
        ..Default::default()
    };
    let mut r = Reliability::new(&cfg);
    r.on_acquired(T0);
    storm(&mut r, 1, 5);
    assert_eq!(r.poll(ts(2)), Action::Reacquire);
    r.on_tier1_result(false); // streak = 1
    storm(&mut r, 10, 5);
    assert_eq!(r.poll(ts(11)), Action::Reacquire);
    r.on_tier1_result(false); // streak = 2
    // Successful acquisition → streak reset to 0 before Reconnect can fire.
    r.on_acquired(ts(20));
    // Now well past every cooldown: machine must be quiet.
    assert_eq!(
        r.poll(ts(900)),
        Action::Idle,
        "stale streak must not fire Reconnect after on_acquired"
    );
}

#[test]
fn wide_window_config_relies_on_clear_on_fire() {
    // window > cooldown: without the dropout clears on fire/acquire,
    // leftover events would refire the instant cooldown+grace expire
    let cfg = ReliabilityConfig { window_s: 300, ..Default::default() };
    let mut r = Reliability::new(&cfg);
    r.on_acquired(T0);
    storm(&mut r, 130, 5);
    assert_eq!(r.poll(ts(135)), Action::Reacquire);
    r.on_tier1_result(true);
    r.on_acquired(ts(136));
    // t=260: past grace (136+120) and cooldown (135+60); the t=130..134
    // events are still inside the 300s window — but were cleared on fire
    assert_eq!(r.poll(ts(260)), Action::Idle);
}

#[test]
fn surges_are_counted_in_telemetry() {
    let mut r = machine();
    r.on_surge(1900);
    r.on_surge(2100);
    let t = r.telemetry();
    assert_eq!(t.total_surges, 2);
    assert_eq!(t.last_surge_peak_rpm, 2100);
    assert_eq!(t.total_tier1, 0);
}

#[test]
fn acquisition_clears_escalation_until_next_failed_tier1() {
    let cfg = ReliabilityConfig {
        grace_s: 0,
        dropout_threshold: 1,
        window_s: 60,
        tier1_cooldown_s: 0,
        tier2_cooldown_s: 0,
        tier2_after_failed_tier1: 1,
    };
    let mut r = Reliability::new(&cfg);
    r.on_acquired(0);
    r.on_tier1_result(false);
    r.on_acquired(1_000);
    // dropouts, surges, successful Tier-1 reports: never a reconnect
    for k in 0..10u64 {
        let now = 2_000 + k * 1_000;
        r.on_dropout(now);
        r.on_surge(1500);
        let a = r.poll(now);
        assert_ne!(a, Action::Reconnect, "poll {k}");
        if a == Action::Reacquire {
            r.on_tier1_result(true);
        }
    }
    // a failed Tier-1 report escalates again
    r.on_tier1_result(false);
    assert_eq!(r.poll(20_000), Action::Reconnect);
}

#[test]
fn surge_episode_judged_on_ninth_healthy_poll() {
    let mut t = SurgeTracker::default();
    assert_eq!(t.observe(true, false, 700), None); // healthy: baseline 700
    assert_eq!(t.observe(true, true, 900), None); // window opens
    assert_eq!(t.observe(true, true, 1200), None);
    for k in 0..SURGE_TAIL_POLLS {
        assert_eq!(t.observe(true, false, 2100 - k as u16), None, "tail poll {k}");
    }
    assert_eq!(t.observe(true, false, 800), Some(Surge { peak_rpm: 2100, baseline_rpm: 700 }));
}
