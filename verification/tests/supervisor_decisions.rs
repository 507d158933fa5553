use llw::acquisition::Link;
use llw::config::StaticColor;
use llw::dongle::Dongle;
use llw::io::FakeIo;
use llw::ipc::{
    air_device_status, device_status, link_status, pending_op_status, IpcError,
};
use llw::record::{parse_device_record, DeviceRecord};
use llw::supervisor::{
    advance, bind_decision, check_op_request, classify_bond, commanded, due, mac_eq, mac_str,
    material_change, max_rpm, pwm_repeats, readback_zero, rgb_upload_due, send_fan_command,
    send_heartbeat, seq_index, static_payload, fan_command_step, ingest_poll, observe_poll, AirEntry, AirInventory,
    BindDecision, BindOp, Bond, DeviceRuntime, OpRefusal, PollObservation, Schedule, StepOutcome,
    StepPlan,
};

const OURS: [u8; 6] = [0xe5, 0xba, 0xf0, 0x72, 0xab, 0x3c];

fn air_record(mac: [u8; 6], master: [u8; 6], pwm: [u8; 4]) -> DeviceRecord {
    let mut r = [0u8; 42];
    r[0..6].copy_from_slice(&mac);
    r[6..12].copy_from_slice(&master);
    r[12] = 2;
    r[13] = 1;
    r[19] = 3;
    r[24] = 36;
    r[36..40].copy_from_slice(&pwm);
    r[41] = 0x1C;
    parse_device_record(&r, 0).expect("valid")
}

#[test]
fn due_respects_interval_and_never_run() {
    assert!(due(None, 0, 1000));
    assert!(!due(Some(5000), 5999, 1000));
    assert!(due(Some(5000), 6000, 1000));
    assert!(!due(Some(5000), 1000, 1000)); // clock behind: no time passed
}

#[test]
fn bond_classification() {
    let ours = air_record([1; 6], OURS, [0; 4]);
    let foreign = air_record([2; 6], [9; 6], [0; 4]);
    let unbound = air_record([3; 6], [0; 6], [0; 4]);
    assert_eq!(classify_bond(&ours, Some(&OURS)), Bond::Ours);
    assert_eq!(classify_bond(&foreign, Some(&OURS)), Bond::Foreign);
    assert_eq!(classify_bond(&unbound, Some(&OURS)), Bond::Unbound);
    // no link yet: nonzero masters are foreign
    assert_eq!(classify_bond(&ours, None), Bond::Foreign);
    assert_eq!(classify_bond(&unbound, None), Bond::Unbound);
    assert_eq!(Bond::Foreign.as_str(), "Foreign");
    assert!(mac_eq(&OURS, &OURS));
    assert!(!mac_eq(&OURS, &[0; 6]));
    assert_eq!(mac_str(&OURS), "e5:ba:f0:72:ab:3c");
}

#[test]
fn air_inventory_upsert_and_prune() {
    let mut air = AirInventory::new();
    let a = air_record([1; 6], OURS, [0; 4]);
    let b = air_record([2; 6], [0; 6], [0; 4]);
    air.upsert(a, 1_000, Bond::Ours);
    air.upsert(b, 2_000, Bond::Unbound);
    air.upsert(a, 20_000, Bond::Foreign); // same MAC: replaced in place
    assert_eq!(air.len(), 2);
    assert_eq!(air.entry(0).last_seen, 20_000);
    assert_eq!(air.get(&[1; 6]).unwrap().bond, Bond::Foreign);
    assert!(air.get(&[7; 6]).is_none());
    // at 32 s the 2 s sighting is 30 s old: expired
    air.prune(32_000);
    assert_eq!(air.len(), 1);
    assert!(air.get(&[2; 6]).is_none());
    assert!(air.get(&[1; 6]).is_some());
    air.prune(49_999);
    assert_eq!(air.len(), 1);
    air.prune(50_000);
    assert_eq!(air.len(), 0);
}

#[test]
fn per_record_observations() {
    assert!(commanded(&[0, 0, 86, 0], 3));
    assert!(!commanded(&[0, 0, 0, 86], 3));
    assert!(readback_zero(&[0, 0, 0, 9], 3));
    assert!(!readback_zero(&[0, 0, 0, 0], 0));
    assert_eq!(max_rpm(&[700, 1900, 800, 5000], 3), 1900);
    assert_eq!(max_rpm(&[700, 1900, 800, 5000], 0), 0);
    assert!(material_change(&[86, 86, 0, 0], &[97, 86, 0, 0]));
    assert!(!material_change(&[86, 86, 0, 0], &[96, 76, 0, 0]));
}

#[test]
fn reverted_master_gets_a_burst() {
    let reverted = air_record([1; 6], OURS, [0, 0, 0, 0]);
    let healthy = air_record([1; 6], OURS, [86, 86, 86, 0]);
    assert_eq!(pwm_repeats(&[86, 86, 86, 0], &reverted), 4);
    assert_eq!(pwm_repeats(&[86, 86, 86, 0], &healthy), 1);
    assert_eq!(pwm_repeats(&[0, 0, 0, 0], &reverted), 1);

    let mut d: Dongle<FakeIo> = Dongle::from_parts(FakeIo::default(), None);
    let link = Link { master_mac: OURS, channel: 2 };
    send_fan_command(&mut d, &[1; 6], &link, &reverted, 1, &[86, 86, 86, 0]).expect("sent");
    let writes = d.tx().written();
    assert_eq!(writes.len(), 16); // 4 frames × 4 chunks
    // PWM frame: [0x12, 0x10, mac.., master.., rx_type, channel, seq, pwm..]
    assert_eq!(&writes[0][4..6], &[0x12, 0x10]);
    assert_eq!(writes[0][4 + 16], 1);
    assert_eq!(&writes[0][4 + 17..4 + 21], &[86, 86, 86, 0]);

    let mut d: Dongle<FakeIo> = Dongle::from_parts(FakeIo::default(), None);
    send_heartbeat(&mut d, &link).expect("sent");
    let writes = d.tx().written();
    assert_eq!(writes.len(), 4);
    assert_eq!(writes[0][3], 0xFF);
    assert_eq!(&writes[0][4..6], &[0x12, 0x14]);
}

#[test]
fn seq_index_counts_our_devices_only() {
    let foreign = air_record([9; 6], [7; 6], [0; 4]);
    let a = air_record([1; 6], OURS, [0; 4]);
    let b = air_record([2; 6], OURS, [0; 4]);
    let records = vec![foreign, a, foreign, b];
    assert_eq!(seq_index(&records, &OURS, &[1; 6]), 1);
    assert_eq!(seq_index(&records, &OURS, &[2; 6]), 2);
    assert_eq!(seq_index(&records, &OURS, &[9; 6]), 1); // not ours: default 1
}

#[test]
fn rgb_upload_decision() {
    let fx = [1, 2, 3, 4];
    assert!(rgb_upload_due(None, &fx, None, 0));
    assert!(!rgb_upload_due(Some(fx), &fx, None, 0)); // in sync
    assert!(rgb_upload_due(Some(fx), &[0; 4], Some(1000), 6000)); // drift, cooled
    assert!(!rgb_upload_due(Some(fx), &[0; 4], Some(1000), 5999)); // cooldown
    let rec = air_record([1; 6], OURS, [0; 4]);
    let (frames, interval) = static_payload(&rec, &StaticColor { rgb: [255, 0, 0], brightness: 2 });
    assert_eq!(interval, 5000);
    assert_eq!(frames.len(), 1);
    assert_eq!(frames[0].len(), 132);
    assert!(frames[0].iter().all(|px| *px == [127, 0, 0]));
}

#[test]
fn settle_window_holds_rf_traffic() {
    let mut s = Schedule::new();
    let p = s.plan(0, 500, 1000, false);
    assert_eq!(p, StepPlan { poll: true, fan_tick: true, heartbeat: true });
    s.begin_settle(100);
    assert!(s.settling());
    // inside the window: nothing, unless a bind op waits (poll only)
    assert_eq!(s.plan(1_000, 500, 1000, false), StepPlan { poll: false, fan_tick: false, heartbeat: false });
    assert_eq!(s.plan(1_500, 500, 1000, true), StepPlan { poll: true, fan_tick: false, heartbeat: false });
    assert!(!s.rgb_allowed(true));
    // the window closes at 3100; held duties fire at once
    assert_eq!(s.plan(3_100, 500, 1000, false), StepPlan { poll: true, fan_tick: true, heartbeat: true });
    assert!(!s.settling());
    assert!(s.rgb_allowed(true));
    assert!(!s.rgb_allowed(false));
}

#[test]
fn bind_requests_are_checked_in_order() {
    let mut air = AirInventory::new();
    let unbound = air_record([0xDE, 0xAD, 0xBE, 0xEF, 0x01, 0x02], [0; 6], [0; 4]);
    let ours = air_record([0xDE, 0xAD, 0xBE, 0xEF, 0x01, 0x03], OURS, [0; 4]);
    let foreign = air_record([0xDE, 0xAD, 0xBE, 0xEF, 0x01, 0x04], [5; 6], [0; 4]);
    air.upsert(unbound, 0, Bond::Unbound);
    air.upsert(ours, 0, Bond::Ours);
    air.upsert(foreign, 0, Bond::Foreign);
    let link = Some(Link { master_mac: OURS, channel: 2 });

    let r = |unbind: bool, settling: bool, link: Option<Link>, mac: &str, pending: Option<&BindOp>| {
        check_op_request(unbind, settling, link, mac, &air, pending).map(|(m, _)| m)
    };
    assert_eq!(r(false, true, link, "de:ad:be:ef:01:02", None), Err(OpRefusal::Settling));
    assert_eq!(r(false, false, None, "de:ad:be:ef:01:02", None), Err(OpRefusal::NoLink));
    assert_eq!(r(false, false, link, "de:ad", None), Err(OpRefusal::InvalidMac));
    assert_eq!(r(false, false, link, "de:ad:be:ef:01:09", None), Err(OpRefusal::NotVisible));
    assert_eq!(r(false, false, link, "de:ad:be:ef:01:04", None), Err(OpRefusal::BoundElsewhere));
    assert_eq!(r(false, false, link, "de:ad:be:ef:01:03", None), Err(OpRefusal::AlreadyBound));
    assert_eq!(r(true, false, link, "de:ad:be:ef:01:04", None), Err(OpRefusal::NotOurs));
    assert_eq!(r(true, false, link, "de:ad:be:ef:01:02", None), Err(OpRefusal::NotBound));
    let live = BindOp::start([1; 6], false, 3, 0);
    assert_eq!(r(false, false, link, "de:ad:be:ef:01:02", Some(&live)), Err(OpRefusal::InProgress));
    let mut failed = live;
    failed.failed_at = Some(10);
    assert_eq!(
        r(false, false, link, "de:ad:be:ef:01:02", Some(&failed)),
        Ok([0xDE, 0xAD, 0xBE, 0xEF, 0x01, 0x02])
    );
    assert_eq!(r(true, false, link, "DE:AD:BE:EF:01:03", None), Ok([0xDE, 0xAD, 0xBE, 0xEF, 0x01, 0x03]));
    assert_eq!(OpRefusal::InvalidMac.message("zz"), "invalid MAC: zz");
    assert_eq!(OpRefusal::Settling.message("x"), "radio settling — retry shortly");
}

#[test]
fn bind_state_machine() {
    let mac = [0xDE, 0xAD, 0xBE, 0xEF, 0x01, 0x02];
    let mut op = BindOp::start(mac, false, 3, 1_000);
    assert_eq!(op.deadline, 6_000);
    let unbound = AirEntry { record: air_record(mac, [0; 6], [0; 4]), last_seen: 0, bond: Bond::Unbound };
    let mut bound = AirEntry { record: air_record(mac, OURS, [0; 4]), last_seen: 0, bond: Bond::Ours };
    bound.record.rx_type = 3;
    let foreign = AirEntry { bond: Bond::Foreign, ..unbound };

    assert_eq!(bind_decision(&op, Some(&unbound), 5_999), BindDecision::Wait);
    assert_eq!(bind_decision(&op, Some(&bound), 9_999), BindDecision::Converged);
    // deadline: one re-burst while the device is still unbound
    assert_eq!(bind_decision(&op, Some(&foreign), 6_000), BindDecision::Fail);
    assert_eq!(bind_decision(&op, None, 6_000), BindDecision::Fail);
    let d = bind_decision(&op, Some(&unbound), 6_000);
    assert_eq!(d, BindDecision::Reburst);
    advance(&mut op, d, 6_000);
    assert_eq!((op.bursts, op.deadline), (2, 11_000));
    // second deadline: fail, then clear 30 s later
    let d = bind_decision(&op, Some(&unbound), 11_000);
    assert_eq!(d, BindDecision::Fail);
    advance(&mut op, d, 11_000);
    assert_eq!(op.failed_at, Some(11_000));
    assert_eq!(bind_decision(&op, Some(&bound), 40_999), BindDecision::KeepFailed);
    assert_eq!(bind_decision(&op, Some(&bound), 41_000), BindDecision::Clear);

    // an unbind converges when the device is unbound or gone
    let un = BindOp::start(mac, true, 0, 0);
    assert_eq!(bind_decision(&un, None, 1), BindDecision::Converged);
    assert_eq!(bind_decision(&un, Some(&unbound), 1), BindDecision::Converged);
    assert_eq!(bind_decision(&un, Some(&bound), 1), BindDecision::Wait);
}

#[test]
fn status_records() {
    let op = BindOp::start([0xDE, 0xAD, 0xBE, 0xEF, 0x01, 0x02], true, 0, 0);
    let s = pending_op_status(&op);
    assert_eq!((s.op.as_str(), s.mac.as_str(), s.state.as_str()), ("unbind", "de:ad:be:ef:01:02", "converging"));
    let l = link_status(&Link { master_mac: OURS, channel: 7 });
    assert_eq!((l.master_mac.as_str(), l.channel), ("e5:ba:f0:72:ab:3c", 7));

    let rec = air_record([1; 6], OURS, [86, 86, 86, 0]);
    let e = AirEntry { record: rec, last_seen: 2_000, bond: Bond::Ours };
    let a = air_device_status(&e, 14_999);
    assert_eq!(a.bond, "Ours");
    assert_eq!(a.last_seen_s, 12);
    assert_eq!(a.kind, "UNI FAN SL-INF Wireless");

    let d = device_status(&[1; 6], None, [1, 2, 3, 4], Some([0; 4]), 3);
    assert_eq!((d.kind.as_str(), d.channel, d.rgb_in_sync, d.dropout_streak), ("?", 0, None, 3));
    let d = device_status(&[1; 6], Some(&rec), [1, 2, 3, 4], Some(rec.effect_index), 0);
    assert_eq!(d.rgb_in_sync, Some(true));
    assert_eq!(d.readback_pwm, [86, 86, 86, 0]);

    assert_eq!(IpcError::Unreachable("no socket".into()).message(), "daemon unreachable: no socket");
    assert_eq!(IpcError::Failed("already bound".into()).message(), "already bound");
    assert_eq!(StepOutcome::default().sent_pwm, 0);
}

fn rpm_record(mac: [u8; 6], pwm: [u8; 4], rpm: u16) -> DeviceRecord {
    let mut r = [0u8; 42];
    r[0..6].copy_from_slice(&mac);
    r[6..12].copy_from_slice(&OURS);
    r[12] = 2;
    r[13] = 1;
    r[19] = 3;
    r[24] = 36;
    for i in 0..3 {
        r[28 + 2 * i..30 + 2 * i].copy_from_slice(&rpm.to_be_bytes());
    }
    r[36..40].copy_from_slice(&pwm);
    r[41] = 0x1C;
    parse_device_record(&r, 0).expect("valid")
}

#[test]
fn poll_observation_tracks_dropouts_and_surges() {
    let mac = [1u8; 6];
    let mut dev = DeviceRuntime::new(mac);
    assert_eq!(dev.seq_index, 1);
    dev.desired = [86, 86, 86, 0];
    let other = rpm_record([9; 6], [86, 86, 86, 0], 700);
    // healthy poll: baseline 700 rpm, our device second among our records
    let healthy = rpm_record(mac, [86, 86, 86, 0], 700);
    let records = vec![other, healthy];
    let seen = observe_poll(&mut dev, &healthy, &records, Some(&OURS), 2);
    assert_eq!(seen, PollObservation { dropout: false, surge: None });
    assert_eq!(dev.seq_index, 2);
    assert_eq!(dev.last_record.map(|r| r.mac), Some(mac));
    // two zero-readback polls while commanded: the second is a dropout
    let zero = rpm_record(mac, [0; 4], 2100);
    let seen = observe_poll(&mut dev, &zero, &[zero], None, 2);
    assert!(!seen.dropout);
    assert_eq!(dev.seq_index, 2, "no link: seq index kept");
    let seen = observe_poll(&mut dev, &zero, &[zero], None, 2);
    assert!(seen.dropout);
    assert_eq!(dev.filter.streak(), 2);
    // readback recovers; the episode is judged after the inertia tail
    let mut judged = None;
    for _ in 0..9 {
        let seen = observe_poll(&mut dev, &healthy, &records, Some(&OURS), 2);
        assert!(!seen.dropout);
        if seen.surge.is_some() {
            judged = seen.surge;
        }
    }
    let surge = judged.expect("surge judged after the tail");
    assert_eq!(surge.peak_rpm, 2100);
    assert_eq!(surge.baseline_rpm, 700);
    assert_eq!(dev.filter.streak(), 0);
}

#[test]
fn fan_command_step_clamps_sends_and_keeps_alive() {
    let mac = [1u8; 6];
    let link = Link { master_mac: OURS, channel: 2 };
    let mut dev = DeviceRuntime::new(mac);
    let mut d: Dongle<FakeIo> = Dongle::from_parts(FakeIo::default(), None);
    // fan 4 of a 3-fan device is clamped to 0; the first command always goes out
    let rec = rpm_record(mac, [50, 50, 50, 0], 0);
    assert_eq!(fan_command_step(&mut d, &mut dev, &link, &rec, [86, 86, 86, 90], 1_000, 1_000), Ok(true));
    assert_eq!(dev.desired, [86, 86, 86, 0]);
    assert_eq!(dev.last_sent, Some(1_000));
    let writes = d.tx().written();
    assert_eq!(writes.len(), 4, "one frame, four chunks: readback is not a revert");
    assert_eq!(&writes[0][4 + 17..4 + 21], &[86, 86, 86, 0]);
    // matched readback and keepalive not due: nothing goes out
    let matched = rpm_record(mac, [86, 86, 86, 0], 900);
    assert_eq!(fan_command_step(&mut d, &mut dev, &link, &matched, [86, 86, 86, 0], 1_500, 1_000), Ok(false));
    assert_eq!(d.tx().written().len(), 4);
    assert_eq!(dev.last_sent, Some(1_000));
    // keepalive due
    assert_eq!(fan_command_step(&mut d, &mut dev, &link, &matched, [86, 86, 86, 0], 2_000, 1_000), Ok(true));
    assert_eq!(d.tx().written().len(), 8);
    assert_eq!(dev.last_sent, Some(2_000));
}

#[test]
fn poll_ingest_classifies_ours_foreign_unbound() {
    let mut air = AirInventory::new();
    let stale = air_record([7; 6], [9; 6], [0; 4]);
    air.upsert(stale, 100, Bond::Foreign);
    let ours = air_record([1; 6], OURS, [0; 4]);
    let foreign = air_record([2; 6], [0xDE, 0xAD, 0xBE, 0xEF, 0x00, 0x01], [0; 4]);
    let unbound = air_record([3; 6], [0; 6], [0; 4]);
    let ours_again = air_record([1; 6], OURS, [50, 50, 50, 0]);
    ingest_poll(&mut air, &[ours, foreign, unbound, ours_again], Some(&OURS), 2_000);
    assert_eq!(air.len(), 4);
    let e = air.get(&[1; 6]).expect("ours");
    assert_eq!((e.bond, e.last_seen, e.record.current_pwm), (Bond::Ours, 2_000, [50, 50, 50, 0]));
    assert_eq!(air.get(&[2; 6]).expect("foreign").bond, Bond::Foreign);
    assert_eq!(air.get(&[3; 6]).expect("unbound").bond, Bond::Unbound);
    let old = air.get(&[7; 6]).expect("kept");
    assert_eq!((old.bond, old.last_seen), (Bond::Foreign, 100));
    // without a link nonzero masters are foreign
    let mut air = AirInventory::new();
    ingest_poll(&mut air, &[ours], None, 5);
    assert_eq!(air.get(&[1; 6]).expect("seen").bond, Bond::Foreign);
}
