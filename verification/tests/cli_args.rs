use llw::cli::{
    chase_count, chase_frames, find_device, op_progress, open_dongle, parse_hex_color, probe_geometry,
    pwm_of_percent, validate_mac, watch_dropout, CliError, OpProgress, PendingView, ProbeError,
};
use llw::device_kind::DeviceKind;
use llw::effects::{FanLayout, Geometry};
use llw::record::{parse_device_record, DeviceRecord};
use llw::dongle::Dongle;
use llw::hex::MacError;
use llw::io::FakeIo;

#[test]
fn mac_validation() {
    assert_eq!(validate_mac("aa:bb:cc:dd:ee:ff"), Ok(()));
    assert_eq!(validate_mac("AA:BB:CC:DD:EE:FF"), Ok(()));
    assert_eq!(validate_mac("aa:bb:cc"), Err(MacError::OctetCount(3)));
    assert_eq!(validate_mac("aa:b:cc:dd:ee:ff"), Err(MacError::OctetShape(1)));
    assert_eq!(validate_mac("aa:bb:cc:dd:ee:fg"), Err(MacError::OctetShape(5)));
}

#[test]
fn color_parsing() {
    assert_eq!(parse_hex_color("FF0000"), Ok([255, 0, 0]));
    assert_eq!(parse_hex_color("#00ff7f"), Ok([0, 255, 127]));
    assert_eq!(parse_hex_color("##0000Ff"), Ok([0, 0, 255]));
    assert_eq!(parse_hex_color("FF00"), Err(CliError::BadColor));
    assert_eq!(parse_hex_color("GG0000"), Err(CliError::BadColor));
}

#[test]
fn percent_to_raw_pwm() {
    assert_eq!(pwm_of_percent(100), Ok(255));
    assert_eq!(pwm_of_percent(40), Ok(102));
    assert_eq!(pwm_of_percent(0), Ok(0));
    assert_eq!(pwm_of_percent(101), Err(CliError::BadPercent(101)));
}

#[test]
fn find_device_by_list_index() {
    let mut rec = [0u8; 42];
    rec[19] = 2;
    rec[24] = 36;
    rec[41] = 0x1C;
    let mut resp = vec![0u8; 4 + 84];
    resp[0] = 0x10;
    resp[1] = 2;
    resp[2] = 0x80;
    resp[4..46].copy_from_slice(&rec);
    rec[0] = 0x42;
    resp[46..88].copy_from_slice(&rec);
    let mut rx = FakeIo::default();
    rx.push_read(resp.clone());
    let mut d = Dongle::from_parts(FakeIo::default(), Some(rx));
    let found = find_device(&mut d, 1).expect("present");
    assert_eq!(found.mac[0], 0x42);
    let mut rx = FakeIo::default();
    rx.push_read(resp);
    let mut d = Dongle::from_parts(FakeIo::default(), Some(rx));
    assert_eq!(find_device(&mut d, 5).unwrap_err(), CliError::NoDevice(5));
}

#[test]
fn bind_progress_verdicts() {
    let mac = "de:ad:be:ef:01:02".to_string();
    let pending = |op: &str, state: &str| PendingView {
        op: op.to_string(),
        mac: mac.clone(),
        state: state.to_string(),
    };
    let none: Vec<String> = vec![];
    let listed = vec![mac.clone()];
    assert_eq!(op_progress(false, &mac, Some(&pending("bind", "failed")), &none), OpProgress::Failed);
    assert_eq!(op_progress(false, &mac, Some(&pending("bind", "converging")), &listed), OpProgress::Converging);
    assert_eq!(op_progress(false, &mac, None, &listed), OpProgress::Done);
    assert_eq!(op_progress(false, &mac, None, &none), OpProgress::Converging);
    assert_eq!(op_progress(true, &mac, None, &none), OpProgress::Done);
    assert_eq!(op_progress(true, &mac, None, &listed), OpProgress::Converging);
    // a failed op of the other kind does not fail this one
    assert_eq!(op_progress(true, &mac, Some(&pending("bind", "failed")), &none), OpProgress::Done);
}

fn probe_record(device_type: u8, fan_count: u8, fan_type_byte: u8, pwm: [u8; 4]) -> DeviceRecord {
    let mut r = [0u8; 42];
    r[0..6].copy_from_slice(&[0x02, 0x8b, 0x51, 0x62, 0x32, 0xe1]);
    r[6..12].copy_from_slice(&[0xe5, 0xba, 0xf0, 0x72, 0xab, 0x3c]);
    r[12] = 2;
    r[13] = 1;
    r[18] = device_type;
    r[19] = fan_count;
    r[24] = fan_type_byte;
    r[36..40].copy_from_slice(&pwm);
    r[41] = 0x1C;
    parse_device_record(&r, 0).expect("valid record")
}

#[test]
fn chase_walks_one_fan_or_the_first_64_strip_leds() {
    // SL-INF: one fan's 44 LEDs
    assert_eq!(chase_count(&probe_record(0, 3, 36, [0; 4])), Ok(44));
    // Strimer(2): 132 LEDs, capped at 64
    assert_eq!(chase_count(&probe_record(2, 0, 0, [0; 4])), Ok(64));
}

#[test]
fn chase_frames_light_one_block_per_frame() {
    let frames = chase_frames(6, 5, 2);
    assert_eq!(frames.len(), 3, "ceil(5 / 2) frames");
    let w = [255u8, 255, 255];
    let k = [0u8, 0, 0];
    assert_eq!(frames[0], vec![w, w, k, k, k, k]);
    assert_eq!(frames[1], vec![k, k, w, w, k, k]);
    assert_eq!(frames[2], vec![k, k, k, k, w, w]);
    let single = chase_frames(3, 3, 1);
    assert_eq!(single.len(), 3);
    assert_eq!(single[2], vec![k, k, w]);
}

#[test]
fn probe_geometry_by_kind() {
    assert_eq!(probe_geometry(DeviceKind::WaterBlock, 1), Err(ProbeError::Aio));
    assert_eq!(probe_geometry(DeviceKind::Strimer(2), 0), Ok(Geometry::Strip { total: 132 }));
    assert_eq!(
        probe_geometry(DeviceKind::SlInf, 3),
        Ok(Geometry::Fans { fan_count: 3, leds_per_fan: 44, layout: FanLayout::UniformRing })
    );
    assert_eq!(
        probe_geometry(DeviceKind::SlInf, 0),
        Err(ProbeError::NoGeometry { leds_per_fan: 44, fan_count: 0 })
    );
}

#[test]
fn watch_flags_commanded_zero_readback() {
    let zero = probe_record(0, 3, 36, [0; 4]);
    let live = probe_record(0, 3, 36, [86, 86, 86, 0]);
    assert!(watch_dropout(true, &zero));
    assert!(!watch_dropout(false, &zero));
    assert!(!watch_dropout(true, &live));
}

#[test]
fn open_dongle_starts_with_nothing_sent() {
    let d = open_dongle::<FakeIo>().expect("fake dongles always open");
    assert!(d.has_rx());
    assert!(d.tx().written().is_empty());
}
