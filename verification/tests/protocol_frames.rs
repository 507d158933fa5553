use llw::consts::RF_DATA_SIZE;
use llw::device_kind::DeviceKind;
use llw::frames::{
    apply_pwm_constraints, effect_index_from_frames, effect_index_from_leds, master_clock_frame,
    pwm_frame, rgb_frames, usb_chunks, RGB_MAX_COMPRESSED,
};

const MAC: [u8; 6] = [0xAA, 0xBB, 0xCC, 0xDD, 0xEE, 0xFF];
const MASTER: [u8; 6] = [0x11, 0x22, 0x33, 0x44, 0x55, 0x66];
const FX: [u8; 4] = [0xDE, 0xAD, 0xBE, 0xEF];

#[test]
fn usb_chunking_is_byte_exact() {
    let mut rf = [0u8; RF_DATA_SIZE];
    for (i, b) in rf.iter_mut().enumerate() {
        *b = i as u8;
    }
    let packets = usb_chunks(&rf, 5, 3);
    assert_eq!(packets.len(), 4);
    for (idx, p) in packets.iter().enumerate() {
        assert_eq!(p[0], 0x10);
        assert_eq!(p[1], idx as u8);
        assert_eq!(p[2], 5);
        assert_eq!(p[3], 3);
        assert_eq!(&p[4..64], &rf[idx * 60..idx * 60 + 60]);
    }
}

#[test]
fn pwm_frame_layout() {
    let rf = pwm_frame(&MAC, &MASTER, 3, 2, 1, &[100, 100, 0, 0]);
    assert_eq!(rf[0], 0x12);
    assert_eq!(rf[1], 0x10);
    assert_eq!(&rf[2..8], &MAC);
    assert_eq!(&rf[8..14], &MASTER);
    assert_eq!(rf[14], 3); // rx_type
    assert_eq!(rf[15], 2); // master channel
    assert_eq!(rf[16], 1); // seq
    assert_eq!(&rf[17..21], &[100, 100, 0, 0]);
    assert_eq!(&rf[21..], &[0u8; 219][..]); // padding untouched
}

#[test]
fn master_clock_frame_layout() {
    let rf = master_clock_frame(&MASTER);
    assert_eq!(rf[0], 0x12);
    assert_eq!(rf[1], 0x14);
    assert_eq!(&rf[2..8], &[0u8; 6][..]); // no device MAC (broadcast)
    assert_eq!(&rf[8..14], &MASTER);
    assert_eq!(&rf[14..], &[0u8; 226][..]);
}

#[test]
fn rgb_frames_header_and_chunking() {
    // 250 compressed bytes → 1 header + 2 data frames (220 + 30)
    let compressed = vec![0xAB; 250];
    let frames = rgb_frames(&MAC, &MASTER, &FX, &compressed, 44, 1, 5000);
    assert_eq!(frames.len(), 3);

    let h = &frames[0];
    assert_eq!(h[0], 0x12);
    assert_eq!(h[1], 0x20);
    assert_eq!(&h[2..8], &MAC);
    assert_eq!(&h[8..14], &MASTER);
    assert_eq!(&h[14..18], &FX);
    assert_eq!(h[18], 0); // header index
    assert_eq!(h[19], 3); // total packets incl. header
    assert_eq!(&h[20..24], &250u32.to_be_bytes());
    assert_eq!(h[24], 0);
    assert_eq!(&h[25..27], &1u16.to_be_bytes());
    assert_eq!(h[27], 44); // led count
    assert_eq!(&h[32..34], &5000u16.to_be_bytes());
    assert_eq!(&h[28..32], &[0u8; 4][..]); // reserved, must stay zero
    assert_eq!(&h[34..], &[0u8; 206][..]); // header padding

    let d1 = &frames[1];
    assert_eq!(d1[18], 1);
    assert_eq!(d1[19], 3);
    assert_eq!(&d1[20..240], &compressed[0..220]);

    let d2 = &frames[2];
    assert_eq!(d2[18], 2);
    assert_eq!(&d2[20..50], &compressed[220..250]);
    assert_eq!(&d2[50..], &[0u8; 190][..]); // rest zero
}

#[test]
fn rgb_frames_exact_chunk_boundary() {
    // exactly 220 bytes → 1 header + 1 data frame
    let compressed = vec![0x01; 220];
    let frames = rgb_frames(&MAC, &MASTER, &FX, &compressed, 88, 4, 100);
    assert_eq!(frames.len(), 2);
    assert_eq!(frames[0][19], 2);
    assert_eq!(frames[0][27], 88);
    assert_eq!(&frames[0][25..27], &4u16.to_be_bytes());
    assert_eq!(&frames[0][32..34], &100u16.to_be_bytes());
}

#[test]
fn rgb_frames_largest_payload_fits_packet_count() {
    // the largest addressable payload: 254 data frames + header = 255
    let compressed = vec![0x5A; RGB_MAX_COMPRESSED];
    let frames = rgb_frames(&MAC, &MASTER, &FX, &compressed, 44, 1, 100);
    assert_eq!(frames.len(), 255);
    assert_eq!(frames[0][19], 255);
    assert_eq!(frames[254][18], 254);
}

#[test]
fn pwm_constraints() {
    // SL-INF: min duty 11% → floor((0.11)*255) = 28
    let mut pwm = [5, 100, 40, 40];
    apply_pwm_constraints(&mut pwm, DeviceKind::SlInf, 2);
    assert_eq!(pwm, [28, 100, 0, 0]); // slot0 raised, slots ≥ fan_count zeroed

    // zero stays zero (fan off is allowed)
    let mut pwm = [0, 100, 0, 0];
    apply_pwm_constraints(&mut pwm, DeviceKind::SlInf, 2);
    assert_eq!(pwm, [0, 100, 0, 0]);

    // CLV1 quirk filter
    let mut pwm = [153, 154, 155, 156];
    apply_pwm_constraints(&mut pwm, DeviceKind::Clv1, 4);
    assert_eq!(pwm, [152, 152, 156, 156]);

    // AIO pump slot survives fan_count
    let mut pwm = [100, 0, 0, 200];
    apply_pwm_constraints(&mut pwm, DeviceKind::WaterBlock, 1);
    assert_eq!(pwm, [100, 0, 0, 200]);
}

#[test]
fn effect_index_fnv1a() {
    // FNV-1a 32-bit of "abc" (0x61 0x62 0x63) is the well-known 0x1a47e90b.
    assert_eq!(
        effect_index_from_leds(&[[0x61, 0x62, 0x63]]),
        0x1a47e90bu32.to_be_bytes()
    );
    // deterministic + input-sensitive + never zero
    let a = effect_index_from_leds(&[[255, 0, 0]; 44]);
    let b = effect_index_from_leds(&[[255, 0, 0]; 44]);
    let c = effect_index_from_leds(&[[0, 255, 0]; 44]);
    assert_eq!(a, b);
    assert_ne!(a, c);
    assert_ne!(effect_index_from_leds(&[]), [0, 0, 0, 0]);
}

#[test]
fn effect_index_from_frames_covers_all_frames() {
    let f0 = vec![[255, 0, 0]; 4];
    let a = effect_index_from_frames(&[f0.clone(), vec![[0, 255, 0]; 4]]);
    let b = effect_index_from_frames(&[f0.clone(), vec![[0, 0, 255]; 4]]);
    assert_ne!(a, b); // animations sharing frame 0 must differ
    assert_eq!(effect_index_from_frames(&[f0.clone()]), effect_index_from_leds(&f0));
}

#[test]
fn effect_index_of_concatenation_matches_single_frame() {
    // hashing two frames equals hashing their pixels as one frame
    let f0 = vec![[1, 2, 3], [4, 5, 6]];
    let f1 = vec![[7, 8, 9]];
    let joined = vec![[1, 2, 3], [4, 5, 6], [7, 8, 9]];
    assert_eq!(effect_index_from_frames(&[f0, f1]), effect_index_from_leds(&joined));
}

#[test]
fn effect_index_empty_hash_is_offset_basis() {
    // no bytes: the FNV offset basis 0x811c9dc5, big-endian
    assert_eq!(effect_index_from_frames(&[]), [0x81, 0x1c, 0x9d, 0xc5]);
}
