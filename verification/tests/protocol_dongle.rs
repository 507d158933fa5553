use llw::dongle::{
    default_channel_order, parse_get_mac_response, rgb_payload, validate_led_frames, Dongle,
};
use llw::frames::{effect_index_from_frames, pwm_frame};
use llw::io::{FakeIo, InputError, ProtocolError, UsbError, UsbIo};

fn make_record(mac: [u8; 6], master: [u8; 6], fan_count: u8) -> [u8; 42] {
    let mut r = [0u8; 42];
    r[0..6].copy_from_slice(&mac);
    r[6..12].copy_from_slice(&master);
    r[12] = 2; // channel
    r[13] = 3; // rx_type
    r[19] = fan_count;
    r[24..28].copy_from_slice(&[36, 36, 0, 0]);
    for (i, rpm) in [700u16, 700, 0, 0].iter().enumerate() {
        r[28 + i * 2..30 + i * 2].copy_from_slice(&rpm.to_be_bytes());
    }
    r[36..40].copy_from_slice(&[86, 86, 0, 0]);
    r[41] = 0x1C;
    r
}

fn getdev_response_with_one_device() -> Vec<u8> {
    let rec = make_record([0xAA, 0xBB, 0xCC, 0xDD, 0xEE, 0xFF], [0x11, 0x22, 0x33, 0x44, 0x55, 0x66], 2);
    let mut resp = vec![0u8; 4 + 42];
    resp[0] = 0x10;
    resp[1] = 1;
    resp[2] = 0x80; // mobo pwm unavailable
    resp[4..46].copy_from_slice(&rec);
    resp
}

#[test]
fn get_dev_via_fake_io() {
    let mut rx = FakeIo::default();
    rx.push_read(getdev_response_with_one_device());
    let mut d = Dongle::from_parts(FakeIo::default(), Some(rx));
    let report = d.get_dev().expect("parsed");
    assert_eq!(report.devices.len(), 1);
    assert_eq!(report.devices[0].fan_count, 2);
}

#[test]
fn get_dev_timeout_is_typed() {
    let mut d = Dongle::from_parts(FakeIo::default(), Some(FakeIo::default()));
    assert!(matches!(d.get_dev(), Err(ProtocolError::NoResponse { op: "GetDev" })));
}

#[test]
fn get_dev_wrong_echo_is_unexpected_response() {
    let mut rx = FakeIo::default();
    rx.push_read(vec![0x77, 0, 0x80, 0]);
    let mut d = Dongle::from_parts(FakeIo::default(), Some(rx));
    assert!(matches!(
        d.get_dev(),
        Err(ProtocolError::UnexpectedResponse { op: "GetDev", expected: 0x10, got: 0x77 })
    ));
}

#[test]
fn get_dev_without_rx_is_unavailable() {
    let mut d: Dongle<FakeIo> = Dongle::from_parts(FakeIo::default(), None);
    assert!(!d.has_rx());
    assert!(matches!(d.get_dev(), Err(ProtocolError::RxUnavailable)));
}

#[test]
fn get_mac_timeout_is_silent_channel() {
    let mut d: Dongle<FakeIo> = Dongle::from_parts(FakeIo::default(), None);
    assert_eq!(d.get_mac(5).expect("ok"), None);
    // and the write actually went out: [0x11, channel, 0...]
    let writes = d.tx().written();
    assert_eq!(writes.len(), 1);
    assert_eq!(writes[0][0], 0x11);
    assert_eq!(writes[0][1], 5);
}

#[test]
fn get_mac_read_error_propagates() {
    let mut tx = FakeIo::default();
    tx.push_read_err(ProtocolError::Usb(UsbError::Pipe));
    let mut d: Dongle<FakeIo> = Dongle::from_parts(tx, None);
    assert_eq!(d.get_mac(5), Err(ProtocolError::Usb(UsbError::Pipe)));
}

#[test]
fn send_rf_frame_chunks_via_fake_io() {
    let mut d: Dongle<FakeIo> = Dongle::from_parts(FakeIo::default(), None);
    let rf = pwm_frame(&[0xAA; 6], &[0x11; 6], 3, 2, 1, &[100, 100, 0, 0]);
    d.send_rf_frame(&rf, 2, 3).expect("sent");
    let writes = d.tx().written();
    assert_eq!(writes.len(), 4); // 4 USB chunks
    for (i, w) in writes.iter().enumerate() {
        assert_eq!(w[0], 0x10);
        assert_eq!(w[1], i as u8);
        assert_eq!(w[2], 2);
        assert_eq!(w[3], 3);
    }
}

#[test]
fn channel_order_matches_upstream() {
    let order: Vec<u8> = default_channel_order();
    assert_eq!(order[0], 8);
    assert_eq!(order.len(), 39); // every channel 1-39 exactly once
    let mut sorted = order.clone();
    sorted.sort_unstable();
    sorted.dedup();
    assert_eq!(sorted, (1..=39).collect::<Vec<u8>>());
    // even channels (except 8) before odd
    let idx_of = |ch: u8| order.iter().position(|&c| c == ch).unwrap();
    assert!(idx_of(2) < idx_of(1));
    assert!(idx_of(38) < idx_of(39));
}

#[test]
fn parses_get_mac_response() {
    let mut resp = [0u8; 64];
    resp[0] = 0x11;
    resp[1..7].copy_from_slice(&[0xAA, 0xBB, 0xCC, 0xDD, 0xEE, 0xFF]);
    resp[11] = 0x01;
    resp[12] = 0x2C;
    let info = parse_get_mac_response(&resp, 13, 5).expect("valid");
    assert_eq!(info.mac, [0xAA, 0xBB, 0xCC, 0xDD, 0xEE, 0xFF]);
    assert_eq!(info.channel, 5);
    assert_eq!(info.firmware, Some(300));

    let info = parse_get_mac_response(&resp, 7, 5).expect("valid");
    assert_eq!(info.firmware, None);

    let mut bad = resp;
    bad[0] = 0x10;
    assert!(parse_get_mac_response(&bad, 13, 5).is_none());

    let mut zero = [0u8; 64];
    zero[0] = 0x11;
    assert!(parse_get_mac_response(&zero, 13, 5).is_none());

    assert!(parse_get_mac_response(&resp[..2], 13, 5).is_none()); // len > buffer: no panic
}

#[test]
fn send_bind_burst_writes_24_chunks_with_correct_headers() {
    let mut d: Dongle<FakeIo> = Dongle::from_parts(FakeIo::default(), None);
    let rf = pwm_frame(&[0xAA; 6], &[0x11; 6], 7, 3, 1, &[100, 100, 0, 0]);
    let channel: u8 = 3;
    let rx_type: u8 = 7;
    d.send_bind_burst(&rf, channel, rx_type).expect("sent");
    let writes = d.tx().written();
    // 6 frames × 4 chunks = 24 USB writes
    assert_eq!(writes.len(), 24, "burst must be exactly 6×4=24 writes");
    for (i, w) in writes.iter().enumerate() {
        // Every packet carries the correct channel and rx_type
        assert_eq!(w[2], channel, "packet[{i}][2] must be channel");
        assert_eq!(w[3], rx_type, "packet[{i}][3] must be rx_type");
    }
}

#[test]
fn validates_led_frames() {
    assert!(validate_led_frames(&[]).is_err());
    assert!(validate_led_frames(&[vec![]]).is_err());
    assert!(validate_led_frames(&[vec![[0, 0, 0]; 256]]).is_err());
    assert!(validate_led_frames(&[vec![[0, 0, 0]; 4], vec![[0, 0, 0]; 5]]).is_err());
    let (n, t) = validate_led_frames(&[
        vec![[0, 0, 0]; 44],
        vec![[0, 0, 0]; 44],
        vec![[0, 0, 0]; 44],
    ])
    .unwrap();
    assert_eq!((n, t), (44, 3));
}

#[test]
fn led_frame_errors_are_specific() {
    assert_eq!(validate_led_frames(&[]), Err(ProtocolError::InvalidInput(InputError::NoFrames)));
    assert_eq!(
        validate_led_frames(&[vec![[0, 0, 0]; 256]]),
        Err(ProtocolError::InvalidInput(InputError::LedCount(256)))
    );
    assert_eq!(
        validate_led_frames(&[vec![[0, 0, 0]; 4], vec![[0, 0, 0]; 4], vec![[0, 0, 0]; 3], vec![]]),
        Err(ProtocolError::InvalidInput(InputError::Ragged { got: 3, expected: 4 }))
    );
}

#[test]
fn rgb_payload_flattens_frames_in_order() {
    let frames = vec![vec![[1, 2, 3], [4, 5, 6]], vec![[7, 8, 9], [10, 11, 12]]];
    assert_eq!(rgb_payload(&frames), vec![1, 2, 3, 4, 5, 6, 7, 8, 9, 10, 11, 12]);
}

#[test]
fn upload_sends_repeated_header_then_data() {
    let mut d: Dongle<FakeIo> = Dongle::from_parts(FakeIo::default(), None);
    let frames = vec![vec![[255, 0, 0]; 44]];
    let compressed = vec![0xAB; 250]; // 1 header + 2 data frames
    let idx = d
        .upload_rgb_compressed(&[0xAA; 6], &[0x11; 6], 2, 3, &frames, &compressed, 5000, 4)
        .expect("uploaded");
    assert_eq!(idx, effect_index_from_frames(&frames));
    let writes = d.tx().written();
    // header × 4 + 2 data frames, 4 chunks each
    assert_eq!(writes.len(), (4 + 2) * 4);
    // chunk 0 of every header send carries RF index 0; data frames 1 and 2
    for r in 0..4 {
        assert_eq!(writes[r * 4][4 + 18], 0);
    }
    assert_eq!(writes[16][4 + 18], 1);
    assert_eq!(writes[20][4 + 18], 2);
}

#[test]
fn upload_zero_repeats_sends_header_once() {
    let mut d: Dongle<FakeIo> = Dongle::from_parts(FakeIo::default(), None);
    let frames = vec![vec![[0, 0, 255]; 10]];
    let compressed = vec![0x01; 10];
    d.upload_rgb_compressed(&[0xAA; 6], &[0x11; 6], 2, 3, &frames, &compressed, 5000, 0)
        .expect("uploaded");
    assert_eq!(d.tx().written().len(), 2 * 4);
}

#[test]
fn upload_refuses_bad_shape_and_oversized_payload() {
    let mut d: Dongle<FakeIo> = Dongle::from_parts(FakeIo::default(), None);
    let none: Vec<Vec<[u8; 3]>> = vec![];
    assert_eq!(
        d.upload_rgb_compressed(&[0; 6], &[0; 6], 2, 3, &none, &[1], 100, 1),
        Err(ProtocolError::InvalidInput(InputError::NoFrames))
    );
    let frames = vec![vec![[0, 0, 0]; 4]];
    let huge = vec![0u8; 254 * 220 + 1];
    assert_eq!(
        d.upload_rgb_compressed(&[0; 6], &[0; 6], 2, 3, &frames, &huge, 100, 1),
        Err(ProtocolError::InvalidInput(InputError::PayloadTooLarge(254 * 220 + 1)))
    );
    assert!(d.tx().written().is_empty());
}

#[test]
fn reset_sends_reset_command() {
    let mut d: Dongle<FakeIo> = Dongle::from_parts(FakeIo::default(), None);
    d.reset().expect("sent");
    let writes = d.tx().written();
    assert_eq!(writes.len(), 1);
    assert_eq!(&writes[0][..2], &[0x11, 0x08]);
}

#[test]
fn open_with_fake_transport_has_rx() {
    let d: Dongle<FakeIo> = Dongle::open().expect("fake transport always opens");
    assert!(d.has_rx());
    assert!(d.tx().written().is_empty());
}

#[test]
fn survey_and_discover_master() {
    let mut tx = FakeIo::default();
    // channel 8 is scanned first and answers
    let mut answer = vec![0u8; 13];
    answer[0] = 0x11;
    answer[1..7].copy_from_slice(&[1, 2, 3, 4, 5, 6]);
    tx.push_read(answer);
    let mut d: Dongle<FakeIo> = Dongle::from_parts(tx, None);
    let info = d.discover_master().expect("found");
    assert_eq!(info.channel, 8);
    assert_eq!(info.mac, [1, 2, 3, 4, 5, 6]);

    // with a silent air every channel is asked once and nothing answers
    let mut d: Dongle<FakeIo> = Dongle::from_parts(FakeIo::default(), None);
    assert_eq!(d.discover_master(), Err(ProtocolError::NoMasterFound));
    assert_eq!(d.tx().written().len(), 39);
    let mut d: Dongle<FakeIo> = Dongle::from_parts(FakeIo::default(), None);
    assert!(d.survey_channels().expect("ok").is_empty());
    let writes = d.tx().written();
    assert_eq!(writes.len(), 39);
    assert_eq!(writes[38][1], 39);
}

#[test]
fn fake_io_truncates_reads_and_scripts_errors() {
    let mut io = FakeIo::default();
    io.push_read(vec![1, 2, 3, 4]);
    io.push_read_err(ProtocolError::NoIds);
    assert_eq!(io.read(2, 10), Ok(vec![1, 2]));
    assert_eq!(io.read(2, 10), Err(ProtocolError::NoIds));
    assert_eq!(io.read(2, 10), Err(ProtocolError::Usb(UsbError::Timeout)));
    io.push_read(vec![9]);
    io.drain_reads();
    assert_eq!(io.read(2, 10), Err(ProtocolError::Usb(UsbError::Timeout)));
}

#[test]
fn fake_reads_pop_truncate_and_time_out() {
    let mut io = FakeIo::open(0x0416, 0x8040).expect("fake opens");
    io.push_read(vec![1, 2, 3, 4]);
    io.push_read_err(ProtocolError::NoIds);
    assert_eq!(io.read(2, 10), Ok(vec![1, 2]));
    assert_eq!(io.read(64, 10), Err(ProtocolError::NoIds));
    assert_eq!(io.read(64, 10), Err(ProtocolError::Usb(UsbError::Timeout)));
}

#[test]
fn send_save_config_writes_12_chunks_with_0xff_rx() {
    let mut d = Dongle::from_parts(FakeIo::default(), None);
    // A SaveConfig frame addressed from master 11:22:33:44:55:66.
    let master_mac: [u8; 6] = [0x11, 0x22, 0x33, 0x44, 0x55, 0x66];
    let mut frame = [0u8; 240];
    frame[8..14].copy_from_slice(&master_mac);
    let master_channel: u8 = 5;
    d.send_save_config(&frame, master_channel).expect("sent");
    let writes = d.tx().written();
    // 3 sends × 4 chunks = 12 USB writes
    assert_eq!(writes.len(), 12, "save_config must be exactly 3×4=12 writes");
    for (i, w) in writes.iter().enumerate() {
        assert_eq!(w[2], master_channel, "packet[{i}][2] must be master_channel");
        assert_eq!(w[3], 0xFF, "packet[{i}][3] must be 0xFF (rx_type for SaveConfig)");
    }
}

#[test]
fn discover_master_asks_in_channel_order_and_stops_at_first_answer() {
    let order = default_channel_order();
    // silent air: one GET_MAC per channel, in scan order, then NoMasterFound
    let mut d: Dongle<FakeIo> = Dongle::from_parts(FakeIo::default(), None);
    assert_eq!(d.discover_master(), Err(ProtocolError::NoMasterFound));
    let writes = d.tx().written();
    assert_eq!(writes.len(), 39);
    for (i, w) in writes.iter().enumerate() {
        let mut expected = vec![0u8; 64];
        expected[0] = 0x11;
        expected[1] = order[i];
        assert_eq!(w, &expected, "GET_MAC {i} asks channel {}", order[i]);
    }
    // the first channel is silent, the second answers: two writes, second channel's info
    let mut tx = FakeIo::default();
    tx.push_read_err(ProtocolError::Usb(UsbError::Timeout));
    let mut answer = vec![0u8; 7];
    answer[0] = 0x11;
    answer[1..7].copy_from_slice(&[9, 8, 7, 6, 5, 4]);
    tx.push_read(answer);
    let mut d: Dongle<FakeIo> = Dongle::from_parts(tx, None);
    let info = d.discover_master().expect("found");
    assert_eq!(info.channel, order[1]);
    assert_eq!(info.mac, [9, 8, 7, 6, 5, 4]);
    assert_eq!(info.firmware, None);
    assert_eq!(d.tx().written().len(), 2);
    // a read error other than silence ends the scan at once
    let mut tx = FakeIo::default();
    tx.push_read_err(ProtocolError::Usb(UsbError::Pipe));
    let mut d: Dongle<FakeIo> = Dongle::from_parts(tx, None);
    assert_eq!(d.discover_master(), Err(ProtocolError::Usb(UsbError::Pipe)));
    assert_eq!(d.tx().written().len(), 1);
}
