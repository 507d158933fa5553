//! Pure builders for the 240-byte RF frames and their 64-byte USB chunks.
//! No I/O here — byte-exact, every layout stated as a contract.

use vstd::prelude::*;
use crate::consts::{RF_SELECT, RF_PWM_CMD, RF_MASTER_CLOCK, RF_SET_RGB, USB_CMD_SEND_RF, RGB_CHUNK_LEN};
use crate::device_kind::{DeviceKind, min_duty_of, is_aio_kind};

verus! {

/// Maximum compressed payload `rgb_frames` can address: the packet-count
/// byte [19] is a u8 counting data packets + 1 header, so at most 254
/// data packets of RGB_CHUNK_LEN bytes each.
pub const RGB_MAX_COMPRESSED: usize = 254 * RGB_CHUNK_LEN;

// ---------------------------------------------------------------------------
// Byte-level helpers
// ---------------------------------------------------------------------------

/// Big-endian bytes of a u32.
pub open spec fn be32(x: u32) -> Seq<u8> {
    seq![
        (x / 16777216) as u8,
        ((x / 65536) % 256) as u8,
        ((x / 256) % 256) as u8,
        (x % 256) as u8,
    ]
}

/// Big-endian bytes of a u16.
pub open spec fn be16(x: u16) -> Seq<u8> {
    seq![(x / 256) as u8, (x % 256) as u8]
}

/// The u16 whose big-endian bytes are `hi`, `lo`.
pub open spec fn u16_from_be(hi: u8, lo: u8) -> u16 {
    (hi as int * 256 + lo as int) as u16
}

pub fn be32_bytes(x: u32) -> (r: [u8; 4])
    ensures
        r@ == be32(x),
{
    let r = [
        (x / 16777216) as u8,
        ((x / 65536) % 256) as u8,
        ((x / 256) % 256) as u8,
        (x % 256) as u8,
    ];
    assert(r@ =~= be32(x));
    r
}

pub fn be16_bytes(x: u16) -> (r: [u8; 2])
    ensures
        r@ == be16(x),
{
    let r = [(x / 256) as u8, (x % 256) as u8];
    assert(r@ =~= be16(x));
    r
}

/// Copy `src` into `dst` starting at byte `at`; every other byte is kept.
fn put(dst: &mut [u8; 240], at: usize, src: &[u8])
    requires
        at + src@.len() <= 240,
    ensures
        forall|i: int|
            0 <= i < 240 ==> #[trigger] final(dst)@[i] == (if at <= i < at + src@.len() {
                src@[i - at]
            } else {
                old(dst)@[i]
            }),
{
    let ghost orig = dst@;
    let mut k: usize = 0;
    while k < src.len()
        invariant
            at + src@.len() <= 240,
            k <= src@.len(),
            dst@.len() == 240,
            forall|i: int|
                0 <= i < 240 ==> #[trigger] dst@[i] == (if at <= i < at + k {
                    src@[i - at]
                } else {
                    orig[i]
                }),
        decreases src@.len() - k,
    {
        dst[at + k] = src[k];
        k += 1;
    }
}

// ---------------------------------------------------------------------------
// USB chunking
// ---------------------------------------------------------------------------

/// USB packet `c` (0..4) carrying chunk `c` of a 240-byte RF frame:
/// [0]=0x10, [1]=chunk index, [2]=channel, [3]=rx_type, [4..64]=60-byte chunk.
pub open spec fn usb_packet_spec(rf: Seq<u8>, c: int, channel: u8, rx_type: u8) -> Seq<u8> {
    Seq::new(
        64,
        |i: int|
            if i == 0 {
                USB_CMD_SEND_RF
            } else if i == 1 {
                c as u8
            } else if i == 2 {
                channel
            } else if i == 3 {
                rx_type
            } else {
                rf[c * 60 + i - 4]
            },
    )
}

/// Split a 240-byte RF frame into 4× 64-byte USB packets for the TX dongle.
pub fn usb_chunks(rf_data: &[u8; 240], channel: u8, rx_type: u8) -> (packets: [[u8; 64]; 4])
    ensures
        forall|c: int|
            0 <= c < 4 ==> #[trigger] packets@[c]@ == usb_packet_spec(
                rf_data@,
                c,
                channel,
                rx_type,
            ),
{
    let mut packets = [[0u8; 64]; 4];
    let mut c: usize = 0;
    while c < 4
        invariant
            c <= 4,
            forall|d: int|
                0 <= d < c ==> #[trigger] packets@[d]@ == usb_packet_spec(
                    rf_data@,
                    d,
                    channel,
                    rx_type,
                ),
        decreases 4 - c,
    {
        let mut p = [0u8; 64];
        p[0] = USB_CMD_SEND_RF;
        p[1] = c as u8;
        p[2] = channel;
        p[3] = rx_type;
        let mut j: usize = 0;
        while j < 60
            invariant
                c < 4,
                j <= 60,
                p@.len() == 64,
                p@[0] == USB_CMD_SEND_RF,
                p@[1] == c as u8,
                p@[2] == channel,
                p@[3] == rx_type,
                forall|i: int| 4 <= i < 4 + j ==> #[trigger] p@[i] == rf_data@[c * 60 + i - 4],
            decreases 60 - j,
        {
            p[4 + j] = rf_data[c * 60 + j];
            j += 1;
        }
        assert(p@ =~= usb_packet_spec(rf_data@, c as int, channel, rx_type));
        packets[c] = p;
        c += 1;
    }
    packets
}

/// Law: the payloads of the four USB packets, read in chunk order, give back
/// the RF frame byte for byte.
pub proof fn lemma_usb_chunks_reassemble(rf: Seq<u8>, channel: u8, rx_type: u8, k: int)
    requires
        rf.len() == 240,
        0 <= k < 240,
    ensures
        usb_packet_spec(rf, k / 60, channel, rx_type)[4 + k % 60] == rf[k],
{
    assert(0 <= k / 60 < 4) by (nonlinear_arith)
        requires
            0 <= k < 240,
    ;
    assert((k / 60) * 60 + k % 60 == k) by (nonlinear_arith);
    assert(0 <= k % 60 < 60) by (nonlinear_arith);
}

// ---------------------------------------------------------------------------
// PWM and heartbeat frames
// ---------------------------------------------------------------------------

/// PWM command frame layout: [0]=0x12, [1]=0x10, [2..8]=device MAC,
/// [8..14]=master MAC, [14]=rx_type, [15]=master channel, [16]=sequence index,
/// [17..21]=PWM×4, rest zero.
pub open spec fn pwm_frame_spec(
    dev: Seq<u8>,
    master: Seq<u8>,
    rx_type: u8,
    master_channel: u8,
    seq_index: u8,
    pwm: Seq<u8>,
) -> Seq<u8> {
    Seq::new(
        240,
        |i: int|
            if i == 0 {
                RF_SELECT
            } else if i == 1 {
                RF_PWM_CMD
            } else if 2 <= i < 8 {
                dev[i - 2]
            } else if 8 <= i < 14 {
                master[i - 8]
            } else if i == 14 {
                rx_type
            } else if i == 15 {
                master_channel
            } else if i == 16 {
                seq_index
            } else if 17 <= i < 21 {
                pwm[i - 17]
            } else {
                0u8
            },
    )
}

/// Build a PWM command frame.
pub fn pwm_frame(
    device_mac: &[u8; 6],
    master_mac: &[u8; 6],
    rx_type: u8,
    master_channel: u8,
    seq_index: u8,
    pwm: &[u8; 4],
) -> (rf: [u8; 240])
    ensures
        rf@ == pwm_frame_spec(device_mac@, master_mac@, rx_type, master_channel, seq_index, pwm@),
{
    let mut rf = [0u8; 240];
    rf[0] = RF_SELECT;
    rf[1] = RF_PWM_CMD;
    put(&mut rf, 2, device_mac.as_slice());
    put(&mut rf, 8, master_mac.as_slice());
    rf[14] = rx_type;
    rf[15] = master_channel;
    rf[16] = seq_index;
    put(&mut rf, 17, pwm.as_slice());
    assert(rf@ =~= pwm_frame_spec(
        device_mac@,
        master_mac@,
        rx_type,
        master_channel,
        seq_index,
        pwm@,
    ));
    rf
}

/// Master-clock heartbeat frame layout: [0]=0x12, [1]=0x14, [8..14]=master
/// MAC, everything else zero (no device MAC: broadcast).
pub open spec fn master_clock_frame_spec(master: Seq<u8>) -> Seq<u8> {
    Seq::new(
        240,
        |i: int|
            if i == 0 {
                RF_SELECT
            } else if i == 1 {
                RF_MASTER_CLOCK
            } else if 8 <= i < 14 {
                master[i - 8]
            } else {
                0u8
            },
    )
}

/// Build the 1Hz master-clock heartbeat frame (broadcast, rx_type 0xFF at the
/// USB layer). The 220-byte cpu-info field is left zero — firmware only needs
/// the heartbeat itself.
pub fn master_clock_frame(master_mac: &[u8; 6]) -> (rf: [u8; 240])
    ensures
        rf@ == master_clock_frame_spec(master_mac@),
{
    let mut rf = [0u8; 240];
    rf[0] = RF_SELECT;
    rf[1] = RF_MASTER_CLOCK;
    put(&mut rf, 8, master_mac.as_slice());
    assert(rf@ =~= master_clock_frame_spec(master_mac@));
    rf
}

// ---------------------------------------------------------------------------
// RGB upload frames
// ---------------------------------------------------------------------------

/// Number of 220-byte data packets needed for `len` compressed bytes.
pub open spec fn rgb_packet_count(len: int) -> int {
    (len + 219) / 220
}

/// Byte `i` of RGB frame `k` (0 = header, 1.. = data packets).
///
/// All frames: [0]=0x12, [1]=0x20, [2..8]=device MAC, [8..14]=master MAC,
/// [14..18]=effect index, [18]=k, [19]=data packets + 1.
/// Header: [20..24]=compressed length u32 BE, [25..27]=frame count u16 BE,
/// [27]=LED count, [32..34]=interval ms u16 BE, rest zero.
/// Data frame k: [20..]=bytes (k-1)*220.. of `compressed` (up to 220), rest zero.
pub open spec fn rgb_frame_byte(
    dev: Seq<u8>,
    master: Seq<u8>,
    fx: Seq<u8>,
    compressed: Seq<u8>,
    led_num: u8,
    total_frames: u16,
    interval_ms: u16,
    k: int,
    i: int,
) -> u8 {
    if i == 0 {
        RF_SELECT
    } else if i == 1 {
        RF_SET_RGB
    } else if 2 <= i < 8 {
        dev[i - 2]
    } else if 8 <= i < 14 {
        master[i - 8]
    } else if 14 <= i < 18 {
        fx[i - 14]
    } else if i == 18 {
        k as u8
    } else if i == 19 {
        (rgb_packet_count(compressed.len() as int) + 1) as u8
    } else if k == 0 {
        if 20 <= i < 24 {
            be32(compressed.len() as u32)[i - 20]
        } else if 25 <= i < 27 {
            be16(total_frames)[i - 25]
        } else if i == 27 {
            led_num
        } else if 32 <= i < 34 {
            be16(interval_ms)[i - 32]
        } else {
            0u8
        }
    } else if (k - 1) * 220 + (i - 20) < compressed.len() {
        compressed[(k - 1) * 220 + (i - 20)]
    } else {
        0u8
    }
}

/// RGB frame `k` as a whole.
pub open spec fn rgb_frame_spec(
    dev: Seq<u8>,
    master: Seq<u8>,
    fx: Seq<u8>,
    compressed: Seq<u8>,
    led_num: u8,
    total_frames: u16,
    interval_ms: u16,
    k: int,
) -> Seq<u8> {
    Seq::new(
        240,
        |i: int|
            rgb_frame_byte(dev, master, fx, compressed, led_num, total_frames, interval_ms, k, i),
    )
}

/// Build the RGB upload frame sequence for a compressed payload.
/// Returns the header frame first (callers re-send it several times for RF
/// reliability), then the data frames carrying 220-byte chunks of `compressed`.
/// Payloads over RGB_MAX_COMPRESSED bytes cannot be addressed by the packet
/// count byte and are not accepted.
pub fn rgb_frames(
    device_mac: &[u8; 6],
    master_mac: &[u8; 6],
    effect_index: &[u8; 4],
    compressed: &[u8],
    led_num: u8,
    total_frames: u16,
    interval_ms: u16,
) -> (frames: Vec<[u8; 240]>)
    requires
        compressed@.len() <= RGB_MAX_COMPRESSED,
    ensures
        frames@.len() == rgb_packet_count(compressed@.len() as int) + 1,
        forall|k: int|
            0 <= k < frames@.len() ==> #[trigger] frames@[k]@ == rgb_frame_spec(
                device_mac@,
                master_mac@,
                effect_index@,
                compressed@,
                led_num,
                total_frames,
                interval_ms,
                k,
            ),
{
    let len = compressed.len();
    let total_pk_num: usize = (len + 219) / 220;
    assert(total_pk_num <= 254);
    let ghost dev = device_mac@;
    let ghost master = master_mac@;
    let ghost fx = effect_index@;
    let ghost comp = compressed@;

    let mut base = [0u8; 240];
    base[0] = RF_SELECT;
    base[1] = RF_SET_RGB;
    put(&mut base, 2, device_mac.as_slice());
    put(&mut base, 8, master_mac.as_slice());
    put(&mut base, 14, effect_index.as_slice());
    base[19] = (total_pk_num + 1) as u8;

    // Header frame (index 0)
    let mut header = base;
    header[18] = 0;
    let len_bytes = be32_bytes(len as u32);
    put(&mut header, 20, len_bytes.as_slice());
    header[24] = 0;
    let tf_bytes = be16_bytes(total_frames);
    put(&mut header, 25, tf_bytes.as_slice());
    header[27] = led_num;
    let iv_bytes = be16_bytes(interval_ms);
    put(&mut header, 32, iv_bytes.as_slice());
    assert(header@ =~= rgb_frame_spec(
        dev,
        master,
        fx,
        comp,
        led_num,
        total_frames,
        interval_ms,
        0,
    ));

    let mut frames: Vec<[u8; 240]> = Vec::new();
    frames.push(header);

    // Data frames (index 1..)
    let mut i: usize = 0;
    while i < total_pk_num
        invariant
            len == comp.len(),
            comp == compressed@,
            dev == device_mac@,
            master == master_mac@,
            fx == effect_index@,
            total_pk_num == rgb_packet_count(len as int),
            total_pk_num <= 254,
            i <= total_pk_num,
            frames@.len() == i + 1,
            base@.len() == 240,
            forall|j: int|
                0 <= j < 240 ==> #[trigger] base@[j] == (if j < 18 {
                    rgb_frame_byte(dev, master, fx, comp, led_num, total_frames, interval_ms, 1, j)
                } else if j == 19 {
                    (total_pk_num + 1) as u8
                } else {
                    0u8
                }),
            forall|k: int|
                0 <= k < frames@.len() ==> #[trigger] frames@[k]@ == rgb_frame_spec(
                    dev,
                    master,
                    fx,
                    comp,
                    led_num,
                    total_frames,
                    interval_ms,
                    k,
                ),
        decreases total_pk_num - i,
    {
        assert(i * 220 < len) by (nonlinear_arith)
            requires
                i < total_pk_num,
                total_pk_num == (len + 219) / 220,
        ;
        let start = i * 220;
        let end = if start + 220 <= len {
            start + 220
        } else {
            len
        };
        let chunk = slice_subrange(compressed, start, end);
        let mut data = base;
        data[18] = (i + 1) as u8;
        put(&mut data, 20, chunk.as_slice());
        assert(data@ =~= rgb_frame_spec(
            dev,
            master,
            fx,
            comp,
            led_num,
            total_frames,
            interval_ms,
            (i + 1) as int,
        ));
        frames.push(data);
        i += 1;
    }
    frames
}

/// The bytes `s[start..end]` of a slice.
fn slice_subrange(s: &[u8], start: usize, end: usize) -> (r: Vec<u8>)
    requires
        start <= end <= s@.len(),
    ensures
        r@ == s@.subrange(start as int, end as int),
{
    let mut r: Vec<u8> = Vec::new();
    let mut k = start;
    while k < end
        invariant
            start <= k <= end,
            end <= s@.len(),
            r@ == s@.subrange(start as int, k as int),
        decreases end - k,
    {
        r.push(s[k]);
        k += 1;
        assert(r@ =~= s@.subrange(start as int, k as int));
    }
    r
}

// ---------------------------------------------------------------------------
// PWM constraints
// ---------------------------------------------------------------------------

/// The smallest nonzero PWM byte a device kind accepts:
/// floor(min_duty% × 255 / 100).
pub open spec fn min_pwm_of(k: DeviceKind) -> u8 {
    (min_duty_of(k) as int * 255 / 100) as u8
}

/// The constrained value of PWM slot `i` holding `v`:
/// - slots beyond `fan_count` are zeroed (except the AIO pump slot 3)
/// - nonzero values below the kind's minimum duty are raised to it
/// - CLV1 firmware quirk: 153/154 → 152, 155 → 156
pub open spec fn constrained_slot(i: int, v: u8, kind: DeviceKind, fan_count: u8) -> u8 {
    let is_pump_slot = i == 3 && is_aio_kind(kind);
    if i >= fan_count && !is_pump_slot {
        0
    } else {
        let raised = if v > 0 && v < min_pwm_of(kind) {
            min_pwm_of(kind)
        } else {
            v
        };
        if kind == DeviceKind::Clv1 && (raised == 153 || raised == 154) {
            152
        } else if kind == DeviceKind::Clv1 && raised == 155 {
            156
        } else {
            raised
        }
    }
}

/// Clamp PWM targets to hardware constraints (see [`constrained_slot`]).
pub fn apply_pwm_constraints(pwm: &mut [u8; 4], kind: DeviceKind, fan_count: u8)
    ensures
        forall|i: int|
            0 <= i < 4 ==> #[trigger] final(pwm)@[i] == constrained_slot(
                i,
                old(pwm)@[i],
                kind,
                fan_count,
            ),
{
    // The duty table only holds 0, 10, 11 and 14 %, for which
    // floor(duty × 255 / 100) is exact in integer arithmetic.
    let min_pwm: u8 = (kind.min_duty_percent() as u16 * 255 / 100) as u8;
    let ghost orig = pwm@;
    let is_clv1 = matches!(kind, DeviceKind::Clv1);
    let mut i: usize = 0;
    while i < 4
        invariant
            i <= 4,
            min_pwm == min_pwm_of(kind),
            is_clv1 == (kind == DeviceKind::Clv1),
            forall|j: int|
                0 <= j < 4 ==> #[trigger] pwm@[j] == if j < i {
                    constrained_slot(j, orig[j], kind, fan_count)
                } else {
                    orig[j]
                },
        decreases 4 - i,
    {
        let is_pump_slot = i == 3 && kind.is_aio();
        if (i as u8) >= fan_count && !is_pump_slot {
            pwm[i] = 0;
        } else {
            let mut val = pwm[i];
            if val > 0 && val < min_pwm {
                val = min_pwm;
            }
            if is_clv1 {
                if val == 153 || val == 154 {
                    val = 152;
                } else if val == 155 {
                    val = 156;
                }
            }
            pwm[i] = val;
        }
        i += 1;
    }
}

// ---------------------------------------------------------------------------
// Effect index (FNV-1a)
// ---------------------------------------------------------------------------

/// FNV-1a 32-bit offset basis.
pub const FNV_OFFSET: u32 = 0x811c_9dc5;

/// FNV-1a 32-bit prime.
pub const FNV_PRIME: u32 = 0x0100_0193;

/// One FNV-1a step: xor the byte in, multiply by the prime modulo 2^32.
pub open spec fn fnv_step(h: u32, b: u8) -> u32 {
    (((h ^ (b as u32)) as nat * FNV_PRIME as nat) % 4294967296nat) as u32
}

/// FNV-1a of a byte string, continuing from state `h`.
pub open spec fn fnv(h: u32, s: Seq<u8>) -> u32
    decreases s.len(),
{
    if s.len() == 0 {
        h
    } else {
        fnv_step(fnv(h, s.drop_last()), s.last())
    }
}

/// The bytes of a run of RGB pixels, pixel after pixel.
pub open spec fn pixel_bytes(px: Seq<[u8; 3]>) -> Seq<u8>
    decreases px.len(),
{
    if px.len() == 0 {
        Seq::empty()
    } else {
        pixel_bytes(px.drop_last()) + seq![px.last()[0], px.last()[1], px.last()[2]]
    }
}

/// The bytes of an animation, frame after frame.
pub open spec fn frame_bytes(frames: Seq<Seq<[u8; 3]>>) -> Seq<u8>
    decreases frames.len(),
{
    if frames.len() == 0 {
        Seq::empty()
    } else {
        frame_bytes(frames.drop_last()) + pixel_bytes(frames.last())
    }
}

/// The 4-byte effect index of a hash state: big-endian, with 0 mapped to 1.
pub open spec fn index_of_hash(h: u32) -> Seq<u8> {
    be32(if h == 0 { 1u32 } else { h })
}

/// The effect index of a byte string.
pub open spec fn effect_index_of_bytes(s: Seq<u8>) -> Seq<u8> {
    index_of_hash(fnv(FNV_OFFSET, s))
}

/// An effect index is never all zero (the hash 0 is sent as 1).
pub proof fn lemma_effect_index_nonzero(s: Seq<u8>)
    ensures
        effect_index_of_bytes(s) != seq![0u8, 0u8, 0u8, 0u8],
{
    let h = fnv(FNV_OFFSET, s);
    let x: u32 = if h == 0 {
        1u32
    } else {
        h
    };
    let b = be32(x);
    if b == seq![0u8, 0u8, 0u8, 0u8] {
        assert(b[0] == 0 && b[1] == 0 && b[2] == 0 && b[3] == 0);
        assert(x == (x / 16777216) * 16777216 + ((x / 65536) % 256) * 65536 + ((x / 256) % 256) * 256
            + x % 256) by (nonlinear_arith);
    }
}

/// Hashing a concatenation continues from the hash of the first part.
pub proof fn lemma_fnv_append(h: u32, a: Seq<u8>, b: Seq<u8>)
    ensures
        fnv(h, a + b) == fnv(fnv(h, a), b),
    decreases b.len(),
{
    if b.len() == 0 {
        assert(a + b =~= a);
    } else {
        lemma_fnv_append(h, a, b.drop_last());
        assert((a + b).drop_last() =~= a + b.drop_last());
    }
}

/// The bytes of two pixel runs side by side.
pub proof fn lemma_pixel_bytes_append(a: Seq<[u8; 3]>, b: Seq<[u8; 3]>)
    ensures
        pixel_bytes(a + b) == pixel_bytes(a) + pixel_bytes(b),
    decreases b.len(),
{
    if b.len() == 0 {
        assert(a + b =~= a);
        assert(pixel_bytes(a) + pixel_bytes(b) =~= pixel_bytes(a));
    } else {
        lemma_pixel_bytes_append(a, b.drop_last());
        assert((a + b).drop_last() =~= a + b.drop_last());
        assert((a + b).last() == b.last());
        assert(pixel_bytes(a + b) =~= pixel_bytes(a) + pixel_bytes(b));
    }
}

/// One pixel hashes as its three bytes in order.
proof fn lemma_fnv_pixel(h: u32, prefix: Seq<[u8; 3]>, p: [u8; 3])
    ensures
        fnv(h, pixel_bytes(prefix.push(p))) == fnv_step(
            fnv_step(fnv_step(fnv(h, pixel_bytes(prefix)), p[0]), p[1]),
            p[2],
        ),
{
    let bs = seq![p[0], p[1], p[2]];
    assert(prefix.push(p).drop_last() =~= prefix);
    assert(pixel_bytes(prefix.push(p)) =~= pixel_bytes(prefix) + bs);
    lemma_fnv_append(h, pixel_bytes(prefix), bs);
    reveal_with_fuel(fnv, 4);
    assert(bs.drop_last().drop_last().drop_last() =~= Seq::<u8>::empty());
    assert(bs.drop_last().drop_last() =~= seq![p[0]]);
    assert(bs.drop_last() =~= seq![p[0], p[1]]);
}

fn fnv_exec_step(h: u32, b: u8) -> (r: u32)
    ensures
        r == fnv_step(h, b),
{
    (h ^ (b as u32)).wrapping_mul(FNV_PRIME)
}

/// Fold a run of pixels into the hash state `h`.
fn fnv_pixels(h: u32, leds: &[[u8; 3]]) -> (r: u32)
    ensures
        r == fnv(h, pixel_bytes(leds@)),
{
    let mut acc = h;
    let mut i: usize = 0;
    while i < leds.len()
        invariant
            i <= leds@.len(),
            acc == fnv(h, pixel_bytes(leds@.take(i as int))),
        decreases leds@.len() - i,
    {
        let px = leds[i];
        proof {
            lemma_fnv_pixel(h, leds@.take(i as int), px);
            assert(leds@.take(i as int).push(px) =~= leds@.take(i + 1));
        }
        acc = fnv_exec_step(acc, px[0]);
        acc = fnv_exec_step(acc, px[1]);
        acc = fnv_exec_step(acc, px[2]);
        i += 1;
    }
    assert(leds@.take(leds@.len() as int) =~= leds@);
    acc
}

fn index_from_hash(h: u32) -> (r: [u8; 4])
    ensures
        r@ == index_of_hash(h),
        r@ != seq![0u8, 0u8, 0u8, 0u8],
{
    let h = if h == 0 {
        1
    } else {
        h
    };
    let r = be32_bytes(h);
    proof {
        if r@ == seq![0u8, 0u8, 0u8, 0u8] {
            assert(r@[0] == 0 && r@[1] == 0 && r@[2] == 0 && r@[3] == 0);
            assert(h == (h / 16777216) * 16777216 + ((h / 65536) % 256) * 65536 + ((h / 256)
                % 256) * 256 + h % 256) by (nonlinear_arith);
        }
    }
    r
}

/// FNV-1a hash of an LED state, used as the RGB effect index. The firmware
/// echoes it back in device records; a mismatch means the firmware reset its
/// lighting (idle watchdog) and the RGB should be re-sent. Never returns
/// all-zero (0 is mapped to 1).
pub fn effect_index_from_leds(leds: &[[u8; 3]]) -> (r: [u8; 4])
    ensures
        r@ == effect_index_of_bytes(pixel_bytes(leds@)),
        r@ != seq![0u8, 0u8, 0u8, 0u8],
{
    let h = fnv_pixels(FNV_OFFSET, leds);
    index_from_hash(h)
}

/// The views of a slice of frames.
pub open spec fn frames_view(frames: Seq<Vec<[u8; 3]>>) -> Seq<Seq<[u8; 3]>> {
    Seq::new(frames.len(), |i: int| frames[i]@)
}

/// FNV-1a hash across ALL frames of an animation (byte-identical to hashing
/// the concatenated frame data). For a single frame this equals
/// `effect_index_from_leds`.
pub fn effect_index_from_frames(frames: &[Vec<[u8; 3]>]) -> (r: [u8; 4])
    ensures
        r@ == effect_index_of_bytes(frame_bytes(frames_view(frames@))),
        r@ != seq![0u8, 0u8, 0u8, 0u8],
{
    let mut h: u32 = FNV_OFFSET;
    let mut i: usize = 0;
    while i < frames.len()
        invariant
            i <= frames@.len(),
            h == fnv(FNV_OFFSET, frame_bytes(frames_view(frames@).take(i as int))),
        decreases frames@.len() - i,
    {
        let ghost before = frames_view(frames@).take(i as int);
        let frame = &frames[i];
        h = fnv_pixels(h, frame.as_slice());
        proof {
            let after = frames_view(frames@).take(i + 1);
            assert(after.drop_last() =~= before);
            assert(after.last() == frames@[i as int]@);
            lemma_fnv_append(FNV_OFFSET, frame_bytes(before), pixel_bytes(frames@[i as int]@));
        }
        i += 1;
    }
    assert(frames_view(frames@).take(frames@.len() as int) =~= frames_view(frames@));
    index_from_hash(h)
}

/// Law: the effect index of a one-frame animation is the effect index of
/// that frame's LEDs.
pub proof fn lemma_single_frame_index(f: Seq<[u8; 3]>)
    ensures
        effect_index_of_bytes(frame_bytes(seq![f])) == effect_index_of_bytes(pixel_bytes(f)),
{
    let one = seq![f];
    assert(one.drop_last() =~= Seq::<Seq<[u8; 3]>>::empty());
    assert(one.last() == f);
    assert(frame_bytes(one.drop_last()) =~= Seq::<u8>::empty());
    assert(frame_bytes(one) == frame_bytes(one.drop_last()) + pixel_bytes(one.last()));
    assert(frame_bytes(one) =~= pixel_bytes(f));
}

/// All pixels of an animation, frame after frame.
pub open spec fn concat_frames(frames: Seq<Seq<[u8; 3]>>) -> Seq<[u8; 3]>
    decreases frames.len(),
{
    if frames.len() == 0 {
        Seq::empty()
    } else {
        concat_frames(frames.drop_last()) + frames.last()
    }
}

/// Law: hashing an animation frame by frame is the same as hashing its
/// concatenated pixel data as one LED run.
pub proof fn lemma_frames_index_is_concat_index(frames: Seq<Seq<[u8; 3]>>)
    ensures
        frame_bytes(frames) == pixel_bytes(concat_frames(frames)),
        effect_index_of_bytes(frame_bytes(frames)) == effect_index_of_bytes(
            pixel_bytes(concat_frames(frames)),
        ),
    decreases frames.len(),
{
    if frames.len() == 0 {
        assert(pixel_bytes(Seq::<[u8; 3]>::empty()) =~= Seq::<u8>::empty());
    } else {
        lemma_frames_index_is_concat_index(frames.drop_last());
        lemma_pixel_bytes_append(concat_frames(frames.drop_last()), frames.last());
    }
}

} // verus!
