use llw::cli::{find_device, poll_devices, CliError};
use llw::io::{ProtocolError, UsbError};
use llw::acquisition::{try_acquire, Link};
use llw::config::StaticColor;
use llw::device_kind::DeviceKind;
use llw::dongle::Dongle;
use llw::effects::{animation_plan, Direction, EffectKind, EffectSpec, FanLayout, Geometry};
use llw::effects_bridge::{compile, frame_budget, geometry_of};
use llw::fan::should_send;
use llw::io::FakeIo;
use llw::record::{parse_device_record, DeviceRecord};
use llw::rgb_assert::{drifted, expected_index, scaled_color, static_frame};

// --- fan send policy (times in milliseconds) ---

#[test]
fn send_policy() {
    let t0: u64 = 1_000_000;
    let ka: u64 = 1000;
    // matched readback, keepalive not due → no send
    assert!(!should_send(&[86; 4], &[86; 4], Some(t0), t0 + 500, ka));
    // keepalive due → send even when matched
    assert!(should_send(&[86; 4], &[86; 4], Some(t0), t0 + ka, ka));
    // never sent → send
    assert!(should_send(&[86; 4], &[86; 4], None, t0, ka));
    // dropout signature [0,0,0,0] → drifted → send immediately
    assert!(should_send(&[86, 86, 86, 0], &[0, 0, 0, 0], Some(t0), t0, ka));
    // small drift within ±5 tolerated (readback jitter)
    assert!(!should_send(&[86; 4], &[84; 4], Some(t0), t0, ka));
    // low-PWM strictness: desired ≤ 10 must match exactly
    assert!(should_send(&[8, 0, 0, 0], &[10, 0, 0, 0], Some(t0), t0, ka));
}

#[test]
fn send_policy_clock_before_last_send_counts_as_no_time() {
    // a clock reading earlier than the last send: elapsed saturates at 0
    assert!(!should_send(&[86; 4], &[86; 4], Some(5000), 4000, 1000));
    // drift of exactly 5 is tolerated, 6 is not
    assert!(!should_send(&[86; 4], &[81; 4], Some(0), 0, 1000));
    assert!(should_send(&[86; 4], &[80; 4], Some(0), 0, 1000));
}

// --- static color assertion ---

fn sl_inf_record_3() -> DeviceRecord {
    // 42-byte synthetic SL-INF record (3 fans × 44 LEDs = 132).
    let mut raw = [0u8; 42];
    raw[18] = 0; // fan device
    raw[19] = 3; // fan count
    raw[24] = 36; // SL-INF fan type byte
    raw[41] = 0x1C;
    parse_device_record(&raw, 0).expect("valid")
}

#[test]
fn brightness_scaling() {
    assert_eq!(scaled_color([255, 255, 255], 4), [255, 255, 255]);
    assert_eq!(scaled_color([255, 255, 255], 2), [127, 127, 127]);
    assert_eq!(scaled_color([255, 100, 0], 0), [0, 0, 0]);
}

#[test]
fn brightness_scaling_quarters_and_clamp() {
    assert_eq!(scaled_color([255, 100, 3], 1), [63, 25, 0]);
    assert_eq!(scaled_color([255, 100, 3], 3), [191, 75, 2]);
    assert_eq!(scaled_color([255, 100, 3], 9), [255, 100, 3]);
}

#[test]
fn frame_covers_all_leds() {
    let rec = sl_inf_record_3();
    let frame = static_frame(&rec, &StaticColor { rgb: [255, 0, 0], brightness: 4 });
    assert_eq!(frame.len(), 132);
    assert!(frame.iter().all(|px| *px == [255, 0, 0]));
}

#[test]
fn expected_index_matches_upload_semantics_and_detects_drift() {
    let rec = sl_inf_record_3();
    let frame = static_frame(&rec, &StaticColor { rgb: [255, 0, 0], brightness: 4 });
    let idx = expected_index(&frame);
    assert_ne!(idx, [0, 0, 0, 0]);
    assert!(!drifted(&idx, &idx));
    // firmware reset to its default index → drift detected
    assert!(drifted(&idx, &[0xd9, 0x2c, 0xb8, 0x51]));
    // different color → different index
    let other = static_frame(&rec, &StaticColor { rgb: [0, 0, 255], brightness: 4 });
    assert!(drifted(&expected_index(&other), &idx));
}

// --- effects bridge ---

fn make_raw_record(device_type: u8, fan_count: u8, fan_type_byte: u8) -> [u8; 42] {
    let mut r = [0u8; 42];
    r[0..6].copy_from_slice(&[0x02, 0x8b, 0x51, 0x62, 0x32, 0xe1]);
    r[6..12].copy_from_slice(&[0xe5, 0xba, 0xf0, 0x72, 0xab, 0x3c]);
    r[12] = 2; // channel
    r[13] = 1; // rx_type
    r[18] = device_type;
    r[19] = fan_count;
    r[24] = fan_type_byte;
    r[41] = 0x1C; // marker
    r
}

fn sl_inf_record(fan_count: u8) -> DeviceRecord {
    parse_device_record(&make_raw_record(0, fan_count, 36), 0).expect("valid sl-inf record")
}

fn strimer2_record() -> DeviceRecord {
    parse_device_record(&make_raw_record(2, 0, 0), 0).expect("valid strimer record")
}

fn aio_record() -> DeviceRecord {
    parse_device_record(&make_raw_record(10, 1, 0), 0).expect("valid aio record")
}

#[test]
fn sl_inf_3fan_geometry() {
    let geom = geometry_of(DeviceKind::SlInf, 3).expect("SL-INF should have geometry");
    assert_eq!(
        geom,
        Geometry::Fans { fan_count: 3, leds_per_fan: 44, layout: FanLayout::SlInf44 }
    );
    assert_eq!(geom.len(), 132);
}

#[test]
fn strimer2_geometry() {
    let geom = geometry_of(DeviceKind::Strimer(2), 0).expect("Strimer(2) should have geometry");
    assert_eq!(geom, Geometry::Strip { total: 132 });
    assert_eq!(geom.len(), 132);
}

#[test]
fn aio_geometry_is_none() {
    assert!(geometry_of(DeviceKind::WaterBlock, 1).is_none(), "AIO geometry must be None (post-v1)");
    assert!(geometry_of(DeviceKind::WaterBlock2, 2).is_none(), "AIO geometry must be None (post-v1)");
}

#[test]
fn other_fan_kinds_use_uniform_ring() {
    assert_eq!(
        geometry_of(DeviceKind::Slv3Led, 2),
        Some(Geometry::Fans { fan_count: 2, leds_per_fan: 40, layout: FanLayout::UniformRing })
    );
    assert!(geometry_of(DeviceKind::SlInf, 0).is_none());
    assert!(geometry_of(DeviceKind::Unknown, 3).is_none(), "an unknown kind has no geometry");
}

#[test]
fn sl_inf_3fan_compile_24_frames_132_leds() {
    let rec = sl_inf_record(3);
    let spec = EffectSpec {
        kind: EffectKind::Ripple,
        colors: vec![[0, 0, 255], [136, 0, 255]],
        speed: 3,
        direction: Direction::Forward,
        brightness: 4,
    };
    let plan = animation_plan(&spec, 24);
    let frames = vec![vec![[0, 0, 255]; 132]; plan.frames as usize];
    let (frames, interval_ms) = compile(&rec, frames, plan.interval_ms).expect("SL-INF compile must succeed");
    assert_eq!(frames.len(), 24, "should render 24 frames");
    for (i, frame) in frames.iter().enumerate() {
        assert_eq!(frame.len(), 132, "frame {i} must have 132 LEDs (3×44)");
    }
    // interval = period_ms(3) / 24 = 3000 / 24 = 125ms
    assert_eq!(interval_ms, 125, "interval should be 125ms for 24 frames at speed 3");
}

#[test]
fn strimer2_compile_strip_132_leds() {
    let rec = strimer2_record();
    let frames = vec![vec![[1, 2, 3]; 132]; 24];
    let (frames, _interval_ms) = compile(&rec, frames, 125).expect("Strimer(2) compile must succeed");
    assert_eq!(frames.len(), 24);
    for frame in &frames {
        assert_eq!(frame.len(), 132, "Strimer(2) frame must have 132 LEDs");
    }
}

#[test]
fn aio_compile_returns_none() {
    // An AIO has no effect geometry, so nothing is rendered for it.
    let rec = aio_record();
    assert!(geometry_of(rec.kind, rec.fan_count).is_none(), "AIO compile must return None");
}

#[test]
fn frame_led_count_consistency() {
    // geometry_of and total_leds must agree for all supported device kinds.
    let rec = sl_inf_record(3);
    let geom = geometry_of(rec.kind, rec.fan_count).unwrap();
    let expected = rec.total_leds() as usize;
    assert_eq!(geom.len(), expected);
    let frames = vec![vec![[0, 0, 0]; geom.len()]; 8];
    let (frames, _) = compile(&rec, frames, 375).unwrap();
    assert!(frames.iter().all(|f| f.len() == expected));
}

#[test]
fn compile_rejects_mismatched_frames() {
    let rec = sl_inf_record(3);
    let frames = vec![vec![[0, 0, 0]; 132], vec![[0, 0, 0]; 131]];
    assert!(compile(&rec, frames, 100).is_none());
}

#[test]
fn frame_budget_132_leds() {
    // 28_000 / (132 × 3) = 28_000 / 396 = 70 (truncated)
    assert_eq!(frame_budget(132), 70);
}

#[test]
fn frame_budget_174_leds() {
    // 28_000 / (174 × 3) = 28_000 / 522 = 53 (truncated)
    assert_eq!(frame_budget(174), 53);
}

#[test]
fn frame_budget_44_leds_capped() {
    // 28_000 / (44 × 3) = 28_000 / 132 = 212 → clamped to 96
    assert_eq!(frame_budget(44), 96);
}

#[test]
fn frame_budget_4000_leds_floored() {
    // 28_000 / (4000 × 3) = 28_000 / 12_000 = 2 → clamped to 8
    assert_eq!(frame_budget(4000), 8);
}

#[test]
fn frame_budget_zero_leds() {
    assert_eq!(frame_budget(0), 8);
}

// --- acquisition ---

fn record_bytes(mac: [u8; 6], master: [u8; 6], ch: u8) -> [u8; 42] {
    let mut r = [0u8; 42];
    r[0..6].copy_from_slice(&mac);
    r[6..12].copy_from_slice(&master);
    r[12] = ch;
    r[13] = 1; // rx_type
    r[19] = 3; // fans
    r[24] = 36; // SL-INF
    r[41] = 0x1C;
    r
}

fn getdev_resp(records: &[[u8; 42]]) -> Vec<u8> {
    let mut resp = vec![0u8; 4 + 42 * records.len()];
    resp[0] = 0x10;
    resp[1] = records.len() as u8;
    resp[2] = 0x80;
    for (i, r) in records.iter().enumerate() {
        resp[4 + i * 42..4 + (i + 1) * 42].copy_from_slice(r);
    }
    resp
}

const MAC: [u8; 6] = [0x02, 0x8b, 0x51, 0x62, 0x32, 0xe1];
const MASTER: [u8; 6] = [0xe5, 0xba, 0xf0, 0x72, 0xab, 0x3c];

#[test]
fn adopts_device_reported_channel_and_master() {
    let mut rx = FakeIo::default();
    rx.push_read(getdev_resp(&[record_bytes(MAC, MASTER, 2)]));
    let mut d = Dongle::from_parts(FakeIo::default(), Some(rx));
    let (link, devs) = try_acquire(&mut d).unwrap().expect("acquired");
    assert_eq!(link, Link { master_mac: MASTER, channel: 2 });
    assert_eq!(devs.len(), 1);
}

#[test]
fn empty_air_is_not_acquired() {
    let mut rx = FakeIo::default();
    rx.push_read({
        let mut resp = vec![0u8; 4];
        resp[0] = 0x10;
        resp[2] = 0x80;
        resp
    });
    let mut d = Dongle::from_parts(FakeIo::default(), Some(rx));
    assert!(try_acquire(&mut d).unwrap().is_none());
}

#[test]
fn timeout_is_not_acquired_not_error() {
    let mut d = Dongle::from_parts(FakeIo::default(), Some(FakeIo::default()));
    assert!(try_acquire(&mut d).unwrap().is_none());
}

#[test]
fn mixed_channels_treated_as_transition() {
    let mut rx = FakeIo::default();
    rx.push_read(getdev_resp(&[record_bytes(MAC, MASTER, 2), record_bytes([0xAA; 6], MASTER, 7)]));
    let mut d = Dongle::from_parts(FakeIo::default(), Some(rx));
    assert!(try_acquire(&mut d).unwrap().is_none());
}

#[test]
fn zero_master_falls_back_to_get_mac() {
    let mut rx = FakeIo::default();
    rx.push_read(getdev_resp(&[record_bytes(MAC, [0; 6], 5)]));
    let mut tx = FakeIo::default();
    let mut answer = vec![0u8; 13];
    answer[0] = 0x11;
    answer[1..7].copy_from_slice(&MASTER);
    tx.push_read(answer);
    let mut d = Dongle::from_parts(tx, Some(rx));
    let (link, _) = try_acquire(&mut d).unwrap().expect("acquired");
    assert_eq!(link, Link { master_mac: MASTER, channel: 5 });
    // the GET_MAC went out on the adopted channel
    let writes = d.tx().written();
    assert_eq!(writes.len(), 1);
    assert_eq!(writes[0][0], 0x11);
    assert_eq!(writes[0][1], 5);
}

#[test]
fn zero_master_and_silent_get_mac_is_an_error() {
    let mut rx = FakeIo::default();
    rx.push_read(getdev_resp(&[record_bytes(MAC, [0; 6], 5)]));
    let mut d = Dongle::from_parts(FakeIo::default(), Some(rx));
    assert_eq!(try_acquire(&mut d).unwrap_err(), llw::acquisition::AcquireError::MasterMacUnknown);
}

#[test]
fn no_rx_dongle_is_an_error() {
    let mut d: Dongle<FakeIo> = Dongle::from_parts(FakeIo::default(), None);
    assert_eq!(
        try_acquire(&mut d).unwrap_err(),
        llw::acquisition::AcquireError::Protocol(llw::io::ProtocolError::RxUnavailable)
    );
}

#[test]
fn poll_takes_the_first_nonempty_list_else_last_empty_else_last_error() {
    // devices in round 1, empty lists after: the devices win at once
    let mut rx = FakeIo::default();
    rx.push_read(getdev_resp(&[record_bytes(MAC, MASTER, 2)]));
    rx.push_read(getdev_resp(&[]));
    let mut d = Dongle::from_parts(FakeIo::default(), Some(rx));
    let rep = poll_devices(&mut d).expect("listed");
    assert_eq!(rep.devices.len(), 1);
    assert_eq!(rep.devices[0].mac, MAC);
    // an error, then an empty list, then silence: the empty list
    let mut rx = FakeIo::default();
    rx.push_read_err(ProtocolError::Usb(UsbError::Pipe));
    rx.push_read(getdev_resp(&[]));
    let mut d = Dongle::from_parts(FakeIo::default(), Some(rx));
    let rep = poll_devices(&mut d).expect("an empty list");
    assert!(rep.devices.is_empty());
    // only silence: the last error, after five rounds
    let mut d = Dongle::from_parts(FakeIo::default(), Some(FakeIo::default()));
    assert_eq!(poll_devices(&mut d).unwrap_err(), ProtocolError::NoResponse { op: "GetDev" });
    // find_device looks in the list the poll returned
    let mut rx = FakeIo::default();
    rx.push_read(getdev_resp(&[record_bytes(MAC, MASTER, 2)]));
    let mut d = Dongle::from_parts(FakeIo::default(), Some(rx));
    assert_eq!(find_device(&mut d, 0).expect("found").mac, MAC);
    let mut rx = FakeIo::default();
    rx.push_read(getdev_resp(&[record_bytes(MAC, MASTER, 2)]));
    let mut d = Dongle::from_parts(FakeIo::default(), Some(rx));
    assert_eq!(find_device(&mut d, 3).unwrap_err(), CliError::NoDevice(3));
}
