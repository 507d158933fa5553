use llw::device_kind::DeviceKind;
use llw::record::{parse_device_record, parse_getdev_response};

/// Build a synthetic 42-byte record.
#[allow(clippy::too_many_arguments)]
fn make_record(
    mac: [u8; 6],
    master_mac: [u8; 6],
    channel: u8,
    rx_type: u8,
    device_type: u8,
    fan_count: u8,
    fan_types: [u8; 4],
    rpms: [u16; 4],
    pwm: [u8; 4],
) -> [u8; 42] {
    let mut r = [0u8; 42];
    r[0..6].copy_from_slice(&mac);
    r[6..12].copy_from_slice(&master_mac);
    r[12] = channel;
    r[13] = rx_type;
    r[18] = device_type;
    r[19] = fan_count;
    r[20..24].copy_from_slice(&[0xDE, 0xAD, 0xBE, 0xEF]); // effect index
    r[24..28].copy_from_slice(&fan_types);
    for (i, rpm) in rpms.iter().enumerate() {
        r[28 + i * 2..30 + i * 2].copy_from_slice(&rpm.to_be_bytes());
    }
    r[36..40].copy_from_slice(&pwm);
    r[40] = 7; // cmd_seq
    r[41] = 0x1C; // marker
    r
}

const MAC: [u8; 6] = [0xAA, 0xBB, 0xCC, 0xDD, 0xEE, 0xFF];
const MASTER: [u8; 6] = [0x11, 0x22, 0x33, 0x44, 0x55, 0x66];

#[test]
fn parses_sl_inf_fan_record() {
    let raw = make_record(MAC, MASTER, 2, 3, 0, 2, [36, 36, 0, 0], [731, 735, 0, 0], [86, 86, 0, 0]);
    let rec = parse_device_record(&raw, 0).expect("valid record");
    assert_eq!(rec.mac, MAC);
    assert_eq!(rec.master_mac, MASTER);
    assert_eq!(rec.channel, 2);
    assert_eq!(rec.rx_type, 3);
    assert_eq!(rec.kind, DeviceKind::SlInf);
    assert_eq!(rec.fan_count, 2);
    assert_eq!(rec.fan_rpms, [731, 735, 0, 0]);
    assert_eq!(rec.current_pwm, [86, 86, 0, 0]);
    assert_eq!(rec.effect_index, [0xDE, 0xAD, 0xBE, 0xEF]);
    assert_eq!(rec.total_leds(), 88); // 2 fans × 44
    assert_eq!(rec.coolant_temp_c, None);
}

#[test]
fn parses_strimer_record() {
    let raw = make_record(MAC, MASTER, 2, 4, 2, 0, [0, 0, 0, 0], [0; 4], [0; 4]);
    let rec = parse_device_record(&raw, 1).expect("valid record");
    assert_eq!(rec.kind, DeviceKind::Strimer(2));
    assert_eq!(rec.total_leds(), 132);
}

#[test]
fn rejects_bad_marker_and_master_and_truncated() {
    let mut raw = make_record(MAC, MASTER, 2, 3, 0, 2, [36; 4], [0; 4], [0; 4]);
    raw[41] = 0x00;
    assert!(parse_device_record(&raw, 0).is_none());

    let master_rec = make_record(MAC, MASTER, 2, 3, 0xFF, 0, [0; 4], [0; 4], [0; 4]);
    assert!(parse_device_record(&master_rec, 0).is_none());

    assert!(parse_device_record(&[0u8; 30], 0).is_none());
}

#[test]
fn parses_getdev_response_with_mobo_pwm() {
    let rec = make_record(MAC, MASTER, 2, 3, 0, 2, [36, 36, 0, 0], [700; 4], [86; 4]);
    let mut resp = vec![0u8; 4 + 42];
    resp[0] = 0x10;
    resp[1] = 1; // one device
    resp[2] = 3; // off_time 3, high bit clear
    resp[3] = 1; // on_time 1 → pwm = 255*1/4 = 63
    resp[4..46].copy_from_slice(&rec);

    let report = parse_getdev_response(&resp, resp.len()).expect("valid response");
    assert_eq!(report.mobo_pwm, Some(63));
    assert_eq!(report.devices.len(), 1);
    assert_eq!(report.devices[0].mac, MAC);
}

#[test]
fn getdev_mobo_pwm_unavailable_and_wrong_echo() {
    let mut resp = vec![0u8; 4];
    resp[0] = 0x10;
    resp[1] = 0;
    resp[2] = 0x80; // high bit set = unavailable
    resp[3] = 0;
    let report = parse_getdev_response(&resp, 4).expect("valid response");
    assert_eq!(report.mobo_pwm, None);
    assert!(report.devices.is_empty());

    resp[0] = 0x77;
    assert!(parse_getdev_response(&resp, 4).is_none());
}

#[test]
fn getdev_truncated_record_is_skipped() {
    let rec = make_record(MAC, MASTER, 2, 3, 0, 2, [36; 4], [0; 4], [0; 4]);
    let mut resp = vec![0u8; 4 + 42 + 10]; // second record truncated
    resp[0] = 0x10;
    resp[1] = 2;
    resp[2] = 0x80;
    resp[4..46].copy_from_slice(&rec);
    let report = parse_getdev_response(&resp, resp.len()).expect("valid response");
    assert_eq!(report.devices.len(), 1);
}

#[test]
fn parses_aio_coolant_temp() {
    let mut raw = make_record(MAC, MASTER, 2, 5, 10, 1, [0, 0, 0, 0], [0, 0, 0, 1900], [0, 0, 0, 128]);
    raw[27] = 34; // coolant temp — overlaps 4th fan-type byte
    let rec = parse_device_record(&raw, 0).expect("valid record");
    assert_eq!(rec.kind, DeviceKind::WaterBlock);
    assert_eq!(rec.coolant_temp_c, Some(34));
    assert_eq!(rec.total_leds(), 48); // 24 pump + 1 fan × 24

    raw[27] = 0; // sensor byte zero → None even for AIO
    let rec = parse_device_record(&raw, 0).expect("valid record");
    assert_eq!(rec.coolant_temp_c, None);
}

#[test]
fn implausible_device_count_ignored() {
    let mut resp = vec![0u8; 4];
    resp[0] = 0x10;
    resp[1] = 13; // > 12
    resp[2] = 0x80;
    let report = parse_getdev_response(&resp, 4).expect("valid response");
    assert!(report.devices.is_empty());
}

#[test]
fn fan_count_clamped_to_four() {
    let mut raw = make_record(MAC, MASTER, 2, 3, 0, 2, [36, 36, 0, 0], [0; 4], [0; 4]);
    raw[19] = 255;
    let rec = parse_device_record(&raw, 0).expect("valid record");
    assert_eq!(rec.fan_count, 4);
}

#[test]
fn getdev_short_buffer_and_zero_denominator() {
    // buffer shorter than claimed len must not panic (hardening regression)
    assert!(parse_getdev_response(&[0x10, 0], 4).is_none());
    // off_time = 0, on_time = 0 → mobo pwm unavailable, no div-by-zero
    let resp = [0x10, 0, 0, 0];
    let report = parse_getdev_response(&resp, 4).expect("valid response");
    assert_eq!(report.mobo_pwm, None);
}

#[test]
fn record_mac_text_is_lowercase_hex() {
    let raw = make_record(MAC, MASTER, 2, 3, 0, 2, [36, 36, 0, 0], [0; 4], [0; 4]);
    let rec = parse_device_record(&raw, 0).expect("valid record");
    assert_eq!(rec.mac_str(), "aa:bb:cc:dd:ee:ff");
}

#[test]
fn list_index_is_carried() {
    let raw = make_record(MAC, MASTER, 2, 3, 0, 2, [36, 36, 0, 0], [0; 4], [0; 4]);
    let rec = parse_device_record(&raw, 5).expect("valid record");
    assert_eq!(rec.list_index, 5);
    assert_eq!(rec.cmd_seq, 7);
}
