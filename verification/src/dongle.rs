//! Dongle I/O: composes the pure builders (`frames`, `record`) with a USB
//! transport. One-shot operations only — polling cadence, keepalive, and
//! recovery policy belong to the caller.
//!
//! Every operation is specified by the wire steps it adds to the
//! transport's trace (packets, pauses, and writes the transport refused)
//! and by the answers it reads.

use vstd::prelude::*;
use crate::consts::{
    USB_CMD_GET_MAC, USB_CMD_SEND_RF, cmd64_spec, cmd_get_dev, cmd_reset, TX_IDS, RX_IDS,
};
use crate::frames::{
    effect_index_from_frames, effect_index_of_bytes, frame_bytes, frames_view, pixel_bytes,
    rgb_frame_spec, rgb_frames, rgb_packet_count, u16_from_be, usb_chunks, usb_packet_spec,
    RGB_MAX_COMPRESSED,
};
use crate::io::{
    lemma_stopped_extends, lemma_stopped_prefix, lemma_stopped_shift, packets_of, refused_with, stopped_at, InputError,
    ProtocolError, UsbError, UsbIo, WireStep,
};
use crate::record::{getdev_accepted, getdev_devices, getdev_record_slots, mobo_pwm_of,
    parse_getdev_response, GetDevReport};

verus! {

/// Master dongle identity discovered via GET_MAC.
#[derive(Debug, Clone, Copy, PartialEq)]
pub struct MasterInfo {
    pub mac: [u8; 6],
    pub channel: u8,
    pub firmware: Option<u16>,
}

/// Whether the first `len` bytes of a GET_MAC answer are a valid echo
/// ([0]=0x11, 7+ bytes) naming a nonzero master MAC.
pub open spec fn get_mac_accepted(r: Seq<u8>, len: int) -> bool {
    &&& len <= r.len()
    &&& len >= 7
    &&& r[0] == USB_CMD_GET_MAC
    &&& r.subrange(1, 7) != seq![0u8, 0u8, 0u8, 0u8, 0u8, 0u8]
}

/// `info` is what the first `len` bytes of GET_MAC answer `r` say about `channel`:
/// MAC at [1..7], firmware u16 BE at [11..13] when 13+ bytes were read.
pub open spec fn get_mac_matches(info: MasterInfo, r: Seq<u8>, len: int, channel: u8) -> bool {
    &&& info.mac@ == r.subrange(1, 7)
    &&& info.channel == channel
    &&& info.firmware == if len >= 13 {
        Some(u16_from_be(r[11], r[12]))
    } else {
        None
    }
}

/// What GET_MAC on `channel` makes of the answer it read: bytes that are a
/// valid echo give the master's info, other bytes and silence (a timeout)
/// give `None`, and any other read error is the result.
pub open spec fn get_mac_outcome(
    answer: Result<Seq<u8>, ProtocolError>,
    channel: u8,
    r: Result<Option<MasterInfo>, ProtocolError>,
) -> bool {
    match answer {
        Ok(bytes) => match r {
            Ok(Some(info)) => get_mac_accepted(bytes, bytes.len() as int) && get_mac_matches(
                info,
                bytes,
                bytes.len() as int,
                channel,
            ),
            Ok(None) => !get_mac_accepted(bytes, bytes.len() as int),
            Err(_) => false,
        },
        Err(e) => if e == ProtocolError::Usb(UsbError::Timeout) {
            r == Ok::<Option<MasterInfo>, ProtocolError>(None)
        } else {
            r == Err::<Option<MasterInfo>, ProtocolError>(e)
        },
    }
}

/// One GET_MAC exchange on `channel`, taking the TX trace from `t0` to `t1`
/// and the TX answers from `a0` to `a1`: either the request was refused (its
/// error is the result, nothing read), or it went out and the one answer
/// read gives the result.
pub open spec fn get_mac_exchange(
    t0: Seq<WireStep>,
    t1: Seq<WireStep>,
    a0: Seq<Result<Seq<u8>, ProtocolError>>,
    a1: Seq<Result<Seq<u8>, ProtocolError>>,
    channel: u8,
    r: Result<Option<MasterInfo>, ProtocolError>,
) -> bool {
    let cmd = cmd64_spec(USB_CMD_GET_MAC, channel, 0, 0);
    ||| (r matches Err(e) && t1 == t0.push(WireStep::Refused(cmd, e)) && a1 == a0)
    ||| (t1 == t0.push(WireStep::Packet(cmd)) && a1.len() == a0.len() + 1 && a1.drop_last() == a0
        && get_mac_outcome(a1.last(), channel, r))
}

/// `hits` is what a survey made of the answers `outs` read on channels
/// 1, 2, … in turn: every answer is bytes or silence, each hit is the valid
/// echo read on its channel, and every channel with a valid echo is a hit.
pub open spec fn survey_found(outs: Seq<Result<Seq<u8>, ProtocolError>>, hits: Seq<MasterInfo>) -> bool {
    &&& forall|k: int|
        0 <= k < outs.len() ==> (#[trigger] outs[k]) is Ok || outs[k] == Err::<Seq<u8>, ProtocolError>(
            ProtocolError::Usb(UsbError::Timeout),
        )
    &&& forall|i: int|
        0 <= i < hits.len() ==> 1 <= (#[trigger] hits[i]).channel <= outs.len() && (
        outs[hits[i].channel - 1] matches Ok(bytes) && get_mac_accepted(bytes, bytes.len() as int)
            && get_mac_matches(hits[i], bytes, bytes.len() as int, hits[i].channel))
    &&& forall|k: int|
        0 <= k < outs.len() && (#[trigger] outs[k] matches Ok(bytes) && get_mac_accepted(
            bytes,
            bytes.len() as int,
        )) ==> exists|i: int| 0 <= i < hits.len() && #[trigger] hits[i].channel == k + 1
}

/// The transport reported `e` last, taking the trace from `t0` to `t1` and
/// the answers from `a0` to `a1`: a write was refused with it, or the last
/// answer read was that error (other than silence).
pub open spec fn failed_last(
    t0: Seq<WireStep>,
    t1: Seq<WireStep>,
    a0: Seq<Result<Seq<u8>, ProtocolError>>,
    a1: Seq<Result<Seq<u8>, ProtocolError>>,
    e: ProtocolError,
) -> bool {
    ||| (t1.len() > t0.len() && refused_with(t1.last(), e))
    ||| (a1.len() > a0.len() && a1.last() == Err::<Seq<u8>, ProtocolError>(e) && e
        != ProtocolError::Usb(UsbError::Timeout))
}

/// Every answer in `outs` is silence or bytes that are no valid GET_MAC echo.
pub open spec fn scan_silent(outs: Seq<Result<Seq<u8>, ProtocolError>>) -> bool {
    forall|k: int|
        0 <= k < outs.len() ==> match #[trigger] outs[k] {
            Ok(bytes) => !get_mac_accepted(bytes, bytes.len() as int),
            Err(e) => e == ProtocolError::Usb(UsbError::Timeout),
        }
}

/// Parse a GET_MAC response. Returns None if the response is not a valid
/// echo or the MAC is all-zero (channel silent).
pub fn parse_get_mac_response(response: &[u8], len: usize, channel: u8) -> (r: Option<MasterInfo>)
    ensures
        r is Some <==> get_mac_accepted(response@, len as int),
        r matches Some(info) ==> get_mac_matches(info, response@, len as int, channel),
{
    if len > response.len() {
        return None;
    }
    if len < 7 || response[0] != USB_CMD_GET_MAC {
        return None;
    }
    let mac = [response[1], response[2], response[3], response[4], response[5], response[6]];
    assert(mac@ =~= response@.subrange(1, 7));
    if mac[0] == 0 && mac[1] == 0 && mac[2] == 0 && mac[3] == 0 && mac[4] == 0 && mac[5] == 0 {
        assert(mac@ =~= seq![0u8, 0u8, 0u8, 0u8, 0u8, 0u8]);
        return None;
    }
    let firmware = if len >= 13 {
        Some(response[11] as u16 * 256 + response[12] as u16)
    } else {
        None
    };
    Some(MasterInfo { mac, channel, firmware })
}

/// The channel scan order: 8 first, then even 2-38, then odd 1-39.
pub open spec fn channel_order() -> Seq<u8> {
    Seq::new(
        39,
        |i: int|
            if i == 0 {
                8u8
            } else if i <= 3 {
                (2 * i) as u8
            } else if i <= 18 {
                (2 * i + 2) as u8
            } else {
                (2 * (i - 19) + 1) as u8
            },
    )
}

/// The channel scan order, as a list.
pub fn default_channel_order() -> (r: Vec<u8>)
    ensures
        r@ == channel_order(),
{
    let mut r: Vec<u8> = Vec::new();
    r.push(8);
    let mut ch: u8 = 2;
    while ch <= 38
        invariant
            2 <= ch <= 40,
            ch % 2 == 0,
            r@.len() == if ch <= 8 {
                (ch / 2) as int
            } else {
                ch / 2 - 1
            },
            forall|i: int| 0 <= i < r@.len() ==> r@[i] == #[trigger] channel_order()[i],
        decreases 40 - ch,
    {
        if ch != 8 {
            r.push(ch);
        }
        ch += 2;
    }
    let mut ch: u8 = 1;
    while ch <= 39
        invariant
            1 <= ch <= 41,
            ch % 2 == 1,
            r@.len() == 19 + ch / 2,
            forall|i: int| 0 <= i < r@.len() ==> r@[i] == #[trigger] channel_order()[i],
        decreases 41 - ch,
    {
        r.push(ch);
        ch += 2;
    }
    assert(r@ =~= channel_order());
    r
}

/// Law: the scan order visits every channel 1-39 exactly once, 8 first and
/// the even channels before the odd ones.
pub proof fn lemma_channel_order_is_permutation()
    ensures
        channel_order().len() == 39,
        channel_order()[0] == 8,
        forall|i: int| 0 <= i < 39 ==> 1 <= #[trigger] channel_order()[i] <= 39,
        forall|i: int, j: int|
            0 <= i < j < 39 ==> #[trigger] channel_order()[i] != #[trigger] channel_order()[j],
        forall|ch: u8| 1 <= ch <= 39 ==> #[trigger] channel_order().contains(ch),
        forall|i: int, j: int|
            0 <= i < 19 <= j < 39 ==> #[trigger] channel_order()[i] % 2 == 0
                && #[trigger] channel_order()[j] % 2 == 1,
{
    assert forall|ch: u8| 1 <= ch <= 39 implies #[trigger] channel_order().contains(ch) by {
        let c = ch as int;
        if c == 8 {
            assert(channel_order()[0] == ch);
        } else if c % 2 == 0 && c < 8 {
            assert(channel_order()[c / 2] == ch);
        } else if c % 2 == 0 {
            assert(channel_order()[c / 2 - 1] == ch);
        } else {
            assert(channel_order()[19 + c / 2] == ch);
        }
    }
}

/// Whether `rep` is what `parse_getdev_response` makes of some GetDev echo.
pub open spec fn report_parsed_from(rep: GetDevReport, bytes: Seq<u8>) -> bool {
    &&& getdev_accepted(bytes, bytes.len() as int)
    &&& rep.mobo_pwm == mobo_pwm_of(bytes[2], bytes[3])
    &&& getdev_devices(rep.devices@, bytes, getdev_record_slots(bytes))
}

/// What GetDev makes of the answer it read: a GetDev echo gives the report
/// it holds, other bytes are an unexpected answer (naming their first byte,
/// 0 when empty), silence (a timeout) is `NoResponse`, and any other read
/// error is the result.
pub open spec fn getdev_outcome(
    answer: Result<Seq<u8>, ProtocolError>,
    r: Result<GetDevReport, ProtocolError>,
) -> bool {
    match answer {
        Ok(bytes) => if getdev_accepted(bytes, bytes.len() as int) {
            r matches Ok(rep) && report_parsed_from(rep, bytes)
        } else {
            r == Err::<GetDevReport, ProtocolError>(
                ProtocolError::UnexpectedResponse {
                    op: "GetDev",
                    expected: USB_CMD_SEND_RF,
                    got: if bytes.len() > 0 {
                        bytes[0]
                    } else {
                        0
                    },
                },
            )
        },
        Err(e) => if e == ProtocolError::Usb(UsbError::Timeout) {
            r == Err::<GetDevReport, ProtocolError>(ProtocolError::NoResponse { op: "GetDev" })
        } else {
            r == Err::<GetDevReport, ProtocolError>(e)
        },
    }
}

/// One GetDev exchange, taking the RX trace from `t0` to `t1` and the RX
/// answers from `a0` to `a1`: either the request was refused (its error is
/// the result, nothing read), or it went out and the one answer read gives
/// the result.
pub open spec fn getdev_exchange(
    t0: Seq<WireStep>,
    t1: Seq<WireStep>,
    a0: Seq<Result<Seq<u8>, ProtocolError>>,
    a1: Seq<Result<Seq<u8>, ProtocolError>>,
    r: Result<GetDevReport, ProtocolError>,
) -> bool {
    let cmd = cmd64_spec(USB_CMD_SEND_RF, 0x01, 0, 0);
    ||| (r matches Err(e) && t1 == t0.push(WireStep::Refused(cmd, e)) && a1 == a0)
    ||| (t1 == t0.push(WireStep::Packet(cmd)) && a1.len() == a0.len() + 1 && a1.drop_last() == a0
        && getdev_outcome(a1.last(), r))
}

/// The wire steps of one RF frame: its four USB packets, each followed by
/// the 1 ms pause the firmware needs.
pub open spec fn rf_steps(rf: Seq<u8>, channel: u8, rx_type: u8) -> Seq<WireStep> {
    Seq::new(
        8,
        |i: int|
            if i % 2 == 0 {
                WireStep::Packet(usb_packet_spec(rf, i / 2, channel, rx_type))
            } else {
                WireStep::Pause(1)
            },
    )
}

/// `n` copies of `p` with a `gap_ms` pause between consecutive copies (none
/// after the last).
pub open spec fn spaced(p: Seq<WireStep>, n: nat, gap_ms: u64) -> Seq<WireStep>
    decreases n,
{
    if n == 0 {
        Seq::empty()
    } else if n == 1 {
        p
    } else {
        spaced(p, (n - 1) as nat, gap_ms) + seq![WireStep::Pause(gap_ms)] + p
    }
}

/// The steps of a burst before its copy number `i` (0-based): the first
/// `i` copies and the gap that follows them.
pub open spec fn spaced_head(p: Seq<WireStep>, i: nat, gap_ms: u64) -> Seq<WireStep> {
    if i == 0 {
        Seq::empty()
    } else {
        spaced(p, i, gap_ms) + seq![WireStep::Pause(gap_ms)]
    }
}

/// A burst of `n` copies begins with the burst of its first `k` copies.
pub proof fn lemma_spaced_prefix(p: Seq<WireStep>, k: nat, n: nat, gap_ms: u64)
    requires
        1 <= k <= n,
    ensures
        spaced(p, k, gap_ms).len() <= spaced(p, n, gap_ms).len(),
        spaced(p, n, gap_ms).take(spaced(p, k, gap_ms).len() as int) == spaced(p, k, gap_ms),
    decreases n,
{
    if k < n {
        lemma_spaced_prefix(p, k, (n - 1) as nat, gap_ms);
        let a = spaced(p, (n - 1) as nat, gap_ms);
        assert(spaced(p, n, gap_ms) == a + seq![WireStep::Pause(gap_ms)] + p);
        assert((a + seq![WireStep::Pause(gap_ms)] + p).take(spaced(p, k, gap_ms).len() as int)
            =~= a.take(spaced(p, k, gap_ms).len() as int));
    } else {
        assert(spaced(p, n, gap_ms).take(spaced(p, n, gap_ms).len() as int) =~= spaced(p, n, gap_ms));
    }
}

/// A copy of a burst that stopped at a refused write stopped the whole
/// burst there.
pub proof fn lemma_spaced_stop(
    p: Seq<WireStep>,
    i: nat,
    n: nat,
    gap_ms: u64,
    before: Seq<WireStep>,
    after: Seq<WireStep>,
    e: ProtocolError,
)
    requires
        i < n,
        stopped_at(p, before + spaced_head(p, i, gap_ms), after, e),
    ensures
        stopped_at(spaced(p, n, gap_ms), before, after, e),
{
    let full = spaced(p, n, gap_ms);
    let h = spaced_head(p, i, gap_ms);
    lemma_spaced_prefix(p, i + 1, n, gap_ms);
    if i == 0 {
        assert(spaced(p, 1, gap_ms) == p);
        assert(full.take(0) =~= h);
    } else {
        assert(spaced(p, i + 1, gap_ms) == spaced(p, i, gap_ms) + seq![WireStep::Pause(gap_ms)] + p);
        assert(full.take(h.len() as int) =~= spaced(p, i + 1, gap_ms).take(h.len() as int));
        assert(spaced(p, i + 1, gap_ms).take(h.len() as int) =~= h);
    }
    assert(full.subrange(h.len() as int, (h.len() + p.len()) as int) =~= spaced(p, i + 1, gap_ms).subrange(
        h.len() as int,
        (h.len() + p.len()) as int,
    ));
    assert(spaced(p, i + 1, gap_ms) =~= h + p);
    assert((h + p).subrange(h.len() as int, (h.len() + p.len()) as int) =~= p);
    lemma_stopped_shift(full, h.len() as int, p, before, after, e);
}

/// The wire steps of RF frames sent one after another.
pub open spec fn frames_steps(fs: Seq<Seq<u8>>, channel: u8, rx_type: u8) -> Seq<WireStep>
    decreases fs.len(),
{
    if fs.len() == 0 {
        Seq::empty()
    } else {
        frames_steps(fs.drop_last(), channel, rx_type) + rf_steps(fs.last(), channel, rx_type)
    }
}

/// The steps of frames sent one after another are those of the first
/// frames followed by those of the rest.
pub proof fn lemma_frames_steps_append(a: Seq<Seq<u8>>, b: Seq<Seq<u8>>, channel: u8, rx_type: u8)
    ensures
        frames_steps(a + b, channel, rx_type) == frames_steps(a, channel, rx_type) + frames_steps(
            b,
            channel,
            rx_type,
        ),
    decreases b.len(),
{
    if b.len() == 0 {
        assert(a + b =~= a);
        assert(frames_steps(a, channel, rx_type) + frames_steps(b, channel, rx_type) =~= frames_steps(
            a,
            channel,
            rx_type,
        ));
    } else {
        lemma_frames_steps_append(a, b.drop_last(), channel, rx_type);
        assert((a + b).drop_last() =~= a + b.drop_last());
        assert((a + b).last() == b.last());
        assert(frames_steps(a, channel, rx_type) + frames_steps(b.drop_last(), channel, rx_type)
            + rf_steps(b.last(), channel, rx_type) =~= frames_steps(a, channel, rx_type) + (
        frames_steps(b.drop_last(), channel, rx_type) + rf_steps(b.last(), channel, rx_type)));
    }
}

/// A data frame of an upload whose send stopped at a refused write stopped
/// the whole upload there: `hdr` is the header burst, and frame `k` follows
/// it and the data frames before it.
pub proof fn lemma_upload_stop_frame(
    all: Seq<Seq<u8>>,
    k: int,
    channel: u8,
    rx_type: u8,
    hdr: Seq<WireStep>,
    before: Seq<WireStep>,
    after: Seq<WireStep>,
    e: ProtocolError,
)
    requires
        1 <= k < all.len(),
        stopped_at(
            rf_steps(all[k], channel, rx_type),
            before + hdr + frames_steps(all.drop_first().take(k - 1), channel, rx_type),
            after,
            e,
        ),
    ensures
        stopped_at(hdr + frames_steps(all.drop_first(), channel, rx_type), before, after, e),
{
    let rest = all.drop_first();
    let done = frames_steps(rest.take(k - 1), channel, rx_type);
    let sub = rf_steps(all[k], channel, rx_type);
    assert(rest.take(k).drop_last() =~= rest.take(k - 1));
    assert(rest.take(k).last() == all[k]);
    assert(frames_steps(rest.take(k), channel, rx_type) == done + sub);
    assert(rest =~= rest.take(k) + rest.skip(k));
    lemma_frames_steps_append(rest.take(k), rest.skip(k), channel, rx_type);
    let full = hdr + frames_steps(rest, channel, rx_type);
    let i: int = (hdr.len() + done.len()) as int;
    assert(full =~= hdr + done + sub + frames_steps(rest.skip(k), channel, rx_type));
    assert(full.take(i) =~= hdr + done);
    assert(full.subrange(i, i + sub.len() as int) =~= sub);
    assert(before + full.take(i) =~= before + hdr + done);
    lemma_stopped_shift(full, i, sub, before, after, e);
}

/// A copy of an upload's header burst that stopped at a refused write
/// stopped the whole upload there (`tail` being the data frames' steps).
pub proof fn lemma_upload_stop_header(
    p: Seq<WireStep>,
    i: nat,
    n: nat,
    gap_ms: u64,
    tail: Seq<WireStep>,
    before: Seq<WireStep>,
    after: Seq<WireStep>,
    e: ProtocolError,
)
    requires
        i < n,
        stopped_at(p, before + spaced_head(p, i, gap_ms), after, e),
    ensures
        stopped_at(spaced(p, n, gap_ms) + tail, before, after, e),
        before.is_prefix_of(after),
{
    lemma_spaced_stop(p, i, n, gap_ms, before, after, e);
    lemma_stopped_prefix(spaced(p, n, gap_ms), tail, before, after, e);
    lemma_stopped_extends(spaced(p, n, gap_ms) + tail, before, after, e);
}

/// The GET_MAC packets of the first `k` channels of the scan order.
pub open spec fn scan_packets(k: nat) -> Seq<Seq<u8>> {
    Seq::new(k, |i: int| cmd64_spec(USB_CMD_GET_MAC, channel_order()[i], 0, 0))
}

/// Whether frame `i` is the first whose LED count differs from frame 0's.
pub open spec fn first_ragged(fs: Seq<Vec<[u8; 3]>>, i: int) -> bool {
    &&& 0 < i < fs.len()
    &&& fs[i]@.len() != fs[0]@.len()
    &&& forall|j: int| 0 <= j < i ==> #[trigger] fs[j]@.len() == fs[0]@.len()
}

/// The verdict on an animation's shape: (LED count, frame count), or why
/// it cannot be uploaded.
pub open spec fn led_frames_check(fs: Seq<Vec<[u8; 3]>>) -> Result<(u8, u16), InputError> {
    if fs.len() == 0 {
        Err(InputError::NoFrames)
    } else if fs[0]@.len() == 0 || fs[0]@.len() > 255 {
        Err(InputError::LedCount(fs[0]@.len() as usize))
    } else if fs.len() > 65535 {
        Err(InputError::FrameCount(fs.len() as usize))
    } else if exists|i: int| first_ragged(fs, i) {
        let i = choose|i: int| first_ragged(fs, i);
        Err(InputError::Ragged { got: fs[i]@.len() as usize, expected: fs[0]@.len() as usize })
    } else {
        Ok((fs[0]@.len() as u8, fs.len() as u16))
    }
}

/// How many times the header frame goes out: `header_repeats`, at least once.
pub open spec fn header_sends(header_repeats: u8) -> nat {
    if header_repeats == 0 {
        1
    } else {
        header_repeats as nat
    }
}

/// The pause between header repeats: 2 ms for up to two sends, else 20 ms.
pub open spec fn header_gap_ms(header_repeats: u8) -> u64 {
    if header_sends(header_repeats) <= 2 {
        2
    } else {
        20
    }
}

/// The RF frames of an RGB upload: header first, then the data frames.
pub open spec fn rgb_upload_frames(
    dev: Seq<u8>,
    master: Seq<u8>,
    fx: Seq<u8>,
    compressed: Seq<u8>,
    led_num: u8,
    total_frames: u16,
    interval_ms: u16,
) -> Seq<Seq<u8>> {
    Seq::new(
        (rgb_packet_count(compressed.len() as int) + 1) as nat,
        |k: int| rgb_frame_spec(dev, master, fx, compressed, led_num, total_frames, interval_ms, k),
    )
}

/// The wire steps of an upload: the header repeated with its gaps, then
/// every data frame once.
pub open spec fn upload_steps(
    frames: Seq<Seq<u8>>,
    channel: u8,
    rx_type: u8,
    header_repeats: u8,
) -> Seq<WireStep> {
    spaced(rf_steps(frames[0], channel, rx_type), header_sends(header_repeats), header_gap_ms(header_repeats))
        + frames_steps(frames.drop_first(), channel, rx_type)
}

/// Validate an animation's shape. Returns (led_num, total_frames).
pub fn validate_led_frames(led_frames: &[Vec<[u8; 3]>]) -> (r: Result<(u8, u16), ProtocolError>)
    ensures
        match led_frames_check(led_frames@) {
            Ok(p) => r == Ok::<(u8, u16), ProtocolError>(p),
            Err(e) => r == Err::<(u8, u16), ProtocolError>(ProtocolError::InvalidInput(e)),
        },
{
    let ghost fs = led_frames@;
    if led_frames.len() == 0 {
        return Err(ProtocolError::InvalidInput(InputError::NoFrames));
    }
    let n = led_frames[0].len();
    if n == 0 || n > 255 {
        return Err(ProtocolError::InvalidInput(InputError::LedCount(n)));
    }
    if led_frames.len() > 65535 {
        return Err(ProtocolError::InvalidInput(InputError::FrameCount(led_frames.len())));
    }
    let mut i: usize = 1;
    while i < led_frames.len()
        invariant
            fs == led_frames@,
            1 <= i <= fs.len(),
            fs.len() <= 65535,
            1 <= n <= 255,
            n == fs[0]@.len(),
            forall|j: int| 0 <= j < i ==> #[trigger] fs[j]@.len() == n,
        decreases fs.len() - i,
    {
        let got = led_frames[i].len();
        if got != n {
            proof {
                assert(first_ragged(fs, i as int));
                let k = choose|k: int| first_ragged(fs, k);
                if k < i {
                    assert(fs[k]@.len() == n);
                } else if k > i {
                    assert(fs[i as int]@.len() == fs[0]@.len());
                }
                assert(k == i as int);
                assert(led_frames_check(fs) == Err::<(u8, u16), InputError>(
                    InputError::Ragged { got, expected: n },
                ));
            }
            return Err(ProtocolError::InvalidInput(InputError::Ragged { got, expected: n }));
        }
        i += 1;
    }
    proof {
        if exists|k: int| first_ragged(fs, k) {
            let k = choose|k: int| first_ragged(fs, k);
            assert(fs[k]@.len() == n);
        }
    }
    Ok((n as u8, led_frames.len() as u16))
}

/// The raw RGB payload of an animation: every pixel's three bytes, frame
/// after frame.
pub fn rgb_payload(led_frames: &[Vec<[u8; 3]>]) -> (raw: Vec<u8>)
    ensures
        raw@ == frame_bytes(frames_view(led_frames@)),
{
    let mut raw: Vec<u8> = Vec::new();
    let mut i: usize = 0;
    while i < led_frames.len()
        invariant
            i <= led_frames@.len(),
            raw@ == frame_bytes(frames_view(led_frames@).take(i as int)),
        decreases led_frames@.len() - i,
    {
        let frame = &led_frames[i];
        let ghost before = raw@;
        let mut j: usize = 0;
        while j < frame.len()
            invariant
                j <= frame@.len(),
                raw@ == before + pixel_bytes(frame@.take(j as int)),
            decreases frame@.len() - j,
        {
            let px = frame[j];
            let ghost mid = raw@;
            raw.push(px[0]);
            raw.push(px[1]);
            raw.push(px[2]);
            proof {
                assert(frame@.take(j + 1).drop_last() =~= frame@.take(j as int));
                assert(raw@ =~= before + pixel_bytes(frame@.take(j + 1)));
            }
            j += 1;
        }
        proof {
            assert(frame@.take(frame@.len() as int) =~= frame@);
            let t = frames_view(led_frames@).take(i + 1);
            assert(t.drop_last() =~= frames_view(led_frames@).take(i as int));
            assert(t.last() == frame@);
        }
        i += 1;
    }
    assert(frames_view(led_frames@).take(led_frames@.len() as int) =~= frames_view(led_frames@));
    raw
}

/// An open TX/RX dongle pair. RX is optional (telemetry only) but required
/// for GetDev discovery.
pub struct Dongle<T: UsbIo> {
    tx: T,
    rx: Option<T>,
    /// Packets written to the TX transport (accepted or refused) and pauses
    /// taken on it, oldest first.
    tx_log: Ghost<Seq<WireStep>>,
    /// What each read from the TX transport gave back, oldest first.
    tx_reads: Ghost<Seq<Result<Seq<u8>, ProtocolError>>>,
    /// Packets written to the RX transport (accepted or refused), oldest first.
    rx_log: Ghost<Seq<WireStep>>,
    /// What each read from the RX transport gave back, oldest first.
    rx_reads: Ghost<Seq<Result<Seq<u8>, ProtocolError>>>,
}

/// Open the first VID:PID pair that opens; the last error when none does.
pub fn open_any<T: UsbIo>(ids: &[(u16, u16)]) -> (r: Result<T, ProtocolError>)
    ensures
        ids@.len() == 0 ==> r == Err::<T, ProtocolError>(ProtocolError::NoIds),
{
    let mut last_err: Option<ProtocolError> = None;
    let mut i: usize = 0;
    while i < ids.len()
        invariant
            i <= ids@.len(),
            i > 0 ==> last_err is Some,
            i == 0 ==> last_err is None,
        decreases ids@.len() - i,
    {
        let (vid, pid) = ids[i];
        match T::open(vid, pid) {
            Ok(t) => return Ok(t),
            Err(e) => last_err = Some(e),
        }
        i += 1;
    }
    match last_err {
        Some(e) => Err(e),
        None => Err(ProtocolError::NoIds),
    }
}

impl<T: UsbIo> Dongle<T> {
    /// What has gone out through the TX dongle so far: each packet written
    /// (refused writes marked with the transport's error), and each pause,
    /// oldest first.
    pub closed spec fn tx_trace(&self) -> Seq<WireStep> {
        self.tx_log@
    }

    /// What each read from the TX dongle gave back so far, oldest first: the
    /// bytes read, or the transport's error (a timeout for silence).
    pub closed spec fn tx_answers(&self) -> Seq<Result<Seq<u8>, ProtocolError>> {
        self.tx_reads@
    }

    /// What each read from the RX dongle gave back so far, oldest first.
    pub closed spec fn rx_answers(&self) -> Seq<Result<Seq<u8>, ProtocolError>> {
        self.rx_reads@
    }

    /// The TX transport.
    pub closed spec fn tx_transport(&self) -> T {
        self.tx
    }

    /// Whether an RX dongle is attached.
    pub closed spec fn rx_present(&self) -> bool {
        self.rx is Some
    }

    /// What has gone out through the RX dongle so far (empty without RX).
    pub closed spec fn rx_trace(&self) -> Seq<WireStep> {
        self.rx_log@
    }

    /// Open the TX dongle (required) and RX dongle (optional), trying V1
    /// then V2 USB IDs. An RX dongle that is missing leaves discovery and
    /// telemetry disabled; one that is found but cannot be claimed is an error.
    pub fn open() -> (r: Result<Self, ProtocolError>)
        ensures
            r matches Ok(d) ==> d.tx_trace().len() == 0 && d.rx_trace().len() == 0
                && d.tx_answers().len() == 0 && d.rx_answers().len() == 0,
    {
        let mut tx: T = open_any(TX_IDS.as_slice())?;
        tx.detach_and_configure("TX")?;
        let rx = match open_any::<T>(RX_IDS.as_slice()) {
            Ok(rx) => {
                let mut rx = rx;
                rx.detach_and_configure("RX")?;
                rx.read_flush();
                Some(rx)
            },
            Err(_) => None,
        };
        Ok(
            Dongle {
                tx,
                rx,
                tx_log: Ghost(Seq::empty()),
                tx_reads: Ghost(Seq::empty()),
                rx_log: Ghost(Seq::empty()),
                rx_reads: Ghost(Seq::empty()),
            },
        )
    }

    /// Assemble a Dongle from raw parts (tests/simulations).
    pub fn from_parts(tx: T, rx: Option<T>) -> (d: Self)
        ensures
            d.tx_trace().len() == 0,
            d.tx_answers().len() == 0,
            d.rx_trace().len() == 0,
            d.rx_answers().len() == 0,
            d.rx_present() == rx is Some,
            d.tx_transport() == tx,
    {
        Dongle {
            tx,
            rx,
            tx_log: Ghost(Seq::empty()),
            tx_reads: Ghost(Seq::empty()),
            rx_log: Ghost(Seq::empty()),
            rx_reads: Ghost(Seq::empty()),
        }
    }

    /// The TX transport (for inspection in simulations).
    pub fn tx(&self) -> (t: &T)
        ensures
            *t == self.tx_transport(),
    {
        &self.tx
    }

    /// Write one packet to the TX transport, noting it when it was accepted.
    fn tx_write(&mut self, data: &[u8]) -> (r: Result<usize, ProtocolError>)
        ensures
            r is Ok ==> final(self).tx_trace() == old(self).tx_trace().push(WireStep::Packet(data@)),
            r matches Err(e) ==> final(self).tx_trace() == old(self).tx_trace().push(
                WireStep::Refused(data@, e),
            ),
            final(self).tx_answers() == old(self).tx_answers(),
            final(self).rx == old(self).rx,
            final(self).rx_trace() == old(self).rx_trace(),
            final(self).rx_answers() == old(self).rx_answers(),
    {
        let r = self.tx.write(data, 1000);
        match &r {
            Ok(_) => {
                self.tx_log = Ghost(self.tx_log@.push(WireStep::Packet(data@)));
            },
            Err(e) => {
                self.tx_log = Ghost(self.tx_log@.push(WireStep::Refused(data@, *e)));
            },
        }
        r
    }

    /// Read one answer of at most `max_len` bytes from the TX transport,
    /// noting what it gave back.
    fn tx_read(&mut self, max_len: usize, timeout_ms: u64) -> (r: Result<Vec<u8>, ProtocolError>)
        ensures
            final(self).tx_answers() == old(self).tx_answers().push(
                match r {
                    Ok(v) => Ok::<Seq<u8>, ProtocolError>(v@),
                    Err(e) => Err::<Seq<u8>, ProtocolError>(e),
                },
            ),
            r matches Ok(v) ==> v@.len() <= max_len,
            final(self).tx_trace() == old(self).tx_trace(),
            final(self).rx == old(self).rx,
            final(self).rx_trace() == old(self).rx_trace(),
            final(self).rx_answers() == old(self).rx_answers(),
    {
        let r = self.tx.read(max_len, timeout_ms);
        match &r {
            Ok(v) => {
                self.tx_reads = Ghost(self.tx_reads@.push(Ok(v@)));
            },
            Err(e) => {
                self.tx_reads = Ghost(self.tx_reads@.push(Err(*e)));
            },
        }
        r
    }

    pub fn has_rx(&self) -> (b: bool)
        ensures
            b == self.rx_present(),
    {
        self.rx.is_some()
    }

    /// Let `ms` milliseconds pass between TX packets.
    pub fn pause_ms(&mut self, ms: u64)
        ensures
            final(self).tx_trace() == old(self).tx_trace().push(WireStep::Pause(ms)),
            final(self).tx_answers() == old(self).tx_answers(),
            final(self).rx_present() == old(self).rx_present(),
            final(self).rx_trace() == old(self).rx_trace(),
            final(self).rx_answers() == old(self).rx_answers(),
    {
        self.tx.pause_ms(ms);
        self.tx_log = Ghost(self.tx_log@.push(WireStep::Pause(ms)));
    }

    /// Send CMD_RESET to the TX dongle (re-syncs the RF network; the master
    /// may hop channels afterwards — re-run discovery), then wait 500 ms.
    pub fn reset(&mut self) -> (r: Result<(), ProtocolError>)
        ensures
            r is Ok ==> final(self).tx_trace() == old(self).tx_trace().push(
                WireStep::Packet(cmd64_spec(USB_CMD_GET_MAC, 0x08, 0, 0)),
            ).push(WireStep::Pause(500)),
            r matches Err(e) ==> final(self).tx_trace() == old(self).tx_trace().push(
                WireStep::Refused(cmd64_spec(USB_CMD_GET_MAC, 0x08, 0, 0), e),
            ),
            final(self).rx_present() == old(self).rx_present(),
            final(self).rx_trace() == old(self).rx_trace(),
    {
        let cmd = cmd_reset();
        self.tx_write(cmd.as_slice())?;
        self.pause_ms(500);
        Ok(())
    }

    /// Query the master MAC on one channel: flush stale answers, send
    /// GET_MAC [0x11, channel, 0…], read up to 64 bytes within 500 ms.
    /// Returns None if the channel doesn't answer (timeout or zero MAC).
    pub fn get_mac(&mut self, channel: u8) -> (r: Result<Option<MasterInfo>, ProtocolError>)
        ensures
            r is Ok ==> final(self).tx_trace() == old(self).tx_trace().push(
                WireStep::Packet(cmd64_spec(USB_CMD_GET_MAC, channel, 0, 0)),
            ),
            get_mac_exchange(
                old(self).tx_trace(),
                final(self).tx_trace(),
                old(self).tx_answers(),
                final(self).tx_answers(),
                channel,
                r,
            ),
            r matches Ok(Some(info)) ==> exists|bytes: Seq<u8>|
                get_mac_accepted(bytes, bytes.len() as int) && #[trigger] get_mac_matches(
                    info,
                    bytes,
                    bytes.len() as int,
                    channel,
                ),
            final(self).rx_present() == old(self).rx_present(),
            final(self).rx_trace() == old(self).rx_trace(),
            final(self).rx_answers() == old(self).rx_answers(),
    {
        let mut cmd = [0u8; 64];
        cmd[0] = USB_CMD_GET_MAC;
        cmd[1] = channel;
        assert(cmd@ =~= cmd64_spec(USB_CMD_GET_MAC, channel, 0, 0));
        self.tx.read_flush();  // drop stale late answers from prior scans/resets
        self.tx_write(cmd.as_slice())?;
        let answer = self.tx_read(64, 500);
        proof {
            assert(self.tx_answers().drop_last() =~= old(self).tx_answers());
        }
        let response = match answer {
            Ok(resp) => resp,
            Err(ProtocolError::Usb(UsbError::Timeout)) => return Ok(None),  // silent channel
            Err(e) => return Err(e),
        };
        let info = parse_get_mac_response(response.as_slice(), response.len(), channel);
        proof {
            if let Some(i) = info {
                assert(get_mac_matches(i, response@, response@.len() as int, channel));
            }
        }
        Ok(info)
    }

    /// Survey every channel 1-39 and return all that answer, in channel order.
    pub fn survey_channels(&mut self) -> (r: Result<Vec<MasterInfo>, ProtocolError>)
        ensures
            r matches Ok(hits) ==> forall|i: int|
                0 <= i < hits@.len() ==> 1 <= #[trigger] hits@[i].channel <= 39,
            r matches Ok(hits) ==> forall|i: int, j: int|
                0 <= i < j < hits@.len() ==> #[trigger] hits@[i].channel < #[trigger] hits@[j].channel,
            r is Ok ==> packets_of(final(self).tx_trace()) == packets_of(old(self).tx_trace())
                + Seq::new(39, |i: int| cmd64_spec(USB_CMD_GET_MAC, (i + 1) as u8, 0, 0)),
            r matches Ok(hits) ==> final(self).tx_answers().len() == old(self).tx_answers().len() + 39
                && final(self).tx_answers().subrange(0, old(self).tx_answers().len() as int) == old(
                self,
            ).tx_answers() && survey_found(
                final(self).tx_answers().subrange(
                    old(self).tx_answers().len() as int,
                    final(self).tx_answers().len() as int,
                ),
                hits@,
            ),
            r matches Err(e) ==> failed_last(
                old(self).tx_trace(),
                final(self).tx_trace(),
                old(self).tx_answers(),
                final(self).tx_answers(),
                e,
            ),
            final(self).rx_present() == old(self).rx_present(),
    {
        let ghost start = self.tx_trace();
        let ghost a0 = self.tx_answers();
        let mut hits: Vec<MasterInfo> = Vec::new();
        let mut ch: u8 = 1;
        while ch <= 39
            invariant
                1 <= ch <= 40,
                self.rx_present() == old(self).rx_present(),
                forall|i: int| 0 <= i < hits@.len() ==> 1 <= #[trigger] hits@[i].channel < ch,
                forall|i: int, j: int|
                    0 <= i < j < hits@.len() ==> #[trigger] hits@[i].channel
                        < #[trigger] hits@[j].channel,
                packets_of(self.tx_trace()) == packets_of(start) + Seq::new(
                    (ch - 1) as nat,
                    |i: int| cmd64_spec(USB_CMD_GET_MAC, (i + 1) as u8, 0, 0),
                ),
                start == old(self).tx_trace(),
                a0 == old(self).tx_answers(),
                self.tx_trace().len() >= start.len(),
                self.tx_answers().len() == a0.len() + ch - 1,
                self.tx_answers().subrange(0, a0.len() as int) == a0,
                survey_found(self.tx_answers().subrange(a0.len() as int, self.tx_answers().len() as int), hits@),
            decreases 40 - ch,
        {
            let ghost before = self.tx_trace();
            let ghost ab = self.tx_answers();
            let found = match self.get_mac(ch) {
                Ok(f) => f,
                Err(e) => {
                    proof {
                        if self.tx_trace() == before.push(WireStep::Packet(cmd64_spec(USB_CMD_GET_MAC, ch, 0, 0))) {
                            assert(self.tx_answers().len() > ab.len());
                        }
                    }
                    return Err(e);
                },
            };
            proof {
                let a1 = self.tx_answers();
                let outs0 = ab.subrange(a0.len() as int, ab.len() as int);
                let outs1 = a1.subrange(a0.len() as int, a1.len() as int);
                assert(outs1 =~= outs0.push(a1.last()));
                assert(a1.subrange(0, a0.len() as int) =~= a0);
            }
            proof {
                let pk = cmd64_spec(USB_CMD_GET_MAC, ch, 0, 0);
                assert(before.push(WireStep::Packet(pk)).drop_last() =~= before);
                assert(Seq::new(
                    ch as nat,
                    |i: int| cmd64_spec(USB_CMD_GET_MAC, (i + 1) as u8, 0, 0),
                ) =~= Seq::new(
                    (ch - 1) as nat,
                    |i: int| cmd64_spec(USB_CMD_GET_MAC, (i + 1) as u8, 0, 0),
                ).push(pk));
            }
            let ghost hits0 = hits@;
            if let Some(info) = found {
                hits.push(info);
            }
            proof {
                let a1 = self.tx_answers();
                let outs1 = a1.subrange(a0.len() as int, a1.len() as int);
                let outs0 = outs1.drop_last();
                assert(outs0 =~= ab.subrange(a0.len() as int, ab.len() as int));
                assert forall|k: int|
                    0 <= k < outs1.len() && (#[trigger] outs1[k] matches Ok(bytes) && get_mac_accepted(
                        bytes,
                        bytes.len() as int,
                    )) implies exists|i: int| 0 <= i < hits@.len() && #[trigger] hits@[i].channel == k + 1 by {
                    if k < outs0.len() {
                        assert(outs0[k] == outs1[k]);
                        let i = choose|i: int| 0 <= i < hits0.len() && #[trigger] hits0[i].channel == k + 1;
                        assert(hits@[i] == hits0[i]);
                    } else {
                        assert(hits@[hits@.len() - 1].channel == k + 1);
                    }
                }
                assert forall|i: int| 0 <= i < hits@.len() implies 1 <= (#[trigger] hits@[i]).channel
                    <= outs1.len() && (outs1[hits@[i].channel - 1] matches Ok(bytes) && get_mac_accepted(
                    bytes,
                    bytes.len() as int,
                ) && get_mac_matches(hits@[i], bytes, bytes.len() as int, hits@[i].channel)) by {
                    if i < hits0.len() {
                        assert(hits@[i] == hits0[i]);
                        assert(outs0[hits0[i].channel - 1] == outs1[hits0[i].channel - 1]);
                    }
                }
                assert forall|k: int| 0 <= k < outs1.len() implies (#[trigger] outs1[k]) is Ok || outs1[k]
                    == Err::<Seq<u8>, ProtocolError>(ProtocolError::Usb(UsbError::Timeout)) by {
                    if k < outs0.len() {
                        assert(outs0[k] == outs1[k]);
                    }
                }
            }
            ch += 1;
        }
        Ok(hits)
    }

    /// Discover the master, first hit wins, scanning
    /// channels in [`channel_order`]: the answer of the first channel that
    /// answers, or `NoMasterFound` when none does.
    pub fn discover_master(&mut self) -> (r: Result<MasterInfo, ProtocolError>)
        ensures
            r matches Ok(info) ==> 1 <= info.channel <= 39 && exists|k: int|
                0 <= k < 39 && info.channel == channel_order()[k] && packets_of(final(self).tx_trace())
                    == packets_of(old(self).tx_trace()) + scan_packets((k + 1) as nat),
            r is Err ==> exists|k: nat|
                k <= 39 && packets_of(final(self).tx_trace()) == packets_of(old(self).tx_trace())
                    + #[trigger] scan_packets(k),
            final(self).tx_answers().len() >= old(self).tx_answers().len(),
            final(self).tx_answers().subrange(0, old(self).tx_answers().len() as int) == old(
                self,
            ).tx_answers(),
            r matches Ok(info) ==> ({
                let outs = final(self).tx_answers().subrange(
                    old(self).tx_answers().len() as int,
                    final(self).tx_answers().len() as int,
                );
                &&& 1 <= outs.len() <= 39
                &&& info.channel == channel_order()[outs.len() - 1]
                &&& scan_silent(outs.drop_last())
                &&& outs.last() matches Ok(bytes) && get_mac_accepted(bytes, bytes.len() as int)
                    && get_mac_matches(info, bytes, bytes.len() as int, info.channel)
            }),
            r matches Err(e) ==> (e == ProtocolError::NoMasterFound && final(self).tx_answers().len()
                == old(self).tx_answers().len() + 39 && scan_silent(
                final(self).tx_answers().subrange(
                    old(self).tx_answers().len() as int,
                    final(self).tx_answers().len() as int,
                ),
            )) || failed_last(
                old(self).tx_trace(),
                final(self).tx_trace(),
                old(self).tx_answers(),
                final(self).tx_answers(),
                e,
            ),
            final(self).rx_present() == old(self).rx_present(),
    {
        let ghost start = self.tx_trace();
        let ghost a0 = self.tx_answers();
        let order = default_channel_order();
        proof {
            lemma_channel_order_is_permutation();
        }
        let mut i: usize = 0;
        while i < order.len()
            invariant
                order@ == channel_order(),
                i <= order@.len(),
                self.rx_present() == old(self).rx_present(),
                forall|k: int| 0 <= k < 39 ==> 1 <= #[trigger] channel_order()[k] <= 39,
                packets_of(self.tx_trace()) == packets_of(start) + scan_packets(i as nat),
                start == old(self).tx_trace(),
                a0 == old(self).tx_answers(),
                self.tx_trace().len() >= start.len(),
                self.tx_answers().len() == a0.len() + i,
                self.tx_answers().subrange(0, a0.len() as int) == a0,
                scan_silent(self.tx_answers().subrange(a0.len() as int, self.tx_answers().len() as int)),
            decreases order@.len() - i,
        {
            let ch = order[i];
            assert(1 <= channel_order()[i as int] <= 39);
            let ghost before = self.tx_trace();
            let ghost ab = self.tx_answers();
            let res = self.get_mac(ch);
            proof {
                let pk = cmd64_spec(USB_CMD_GET_MAC, ch, 0, 0);
                assert(before.push(WireStep::Packet(pk)).drop_last() =~= before);
                assert(scan_packets((i + 1) as nat) =~= scan_packets(i as nat).push(pk));
            }
            let found = match res {
                Ok(f) => f,
                Err(e) => {
                    proof {
                        let pk = cmd64_spec(USB_CMD_GET_MAC, ch, 0, 0);
                        if self.tx_trace() == before.push(WireStep::Refused(pk, e)) {
                            assert(self.tx_trace().drop_last() =~= before);
                            assert(packets_of(self.tx_trace()) == packets_of(start) + scan_packets(
                                i as nat,
                            ));
                        } else {
                            assert(packets_of(self.tx_trace()) == packets_of(start) + scan_packets(
                                (i + 1) as nat,
                            ));
                            assert(self.tx_answers().subrange(0, a0.len() as int) =~= a0);
                        }
                    }
                    return Err(e);
                },
            };
            proof {
                let a1 = self.tx_answers();
                let outs0 = ab.subrange(a0.len() as int, ab.len() as int);
                let outs1 = a1.subrange(a0.len() as int, a1.len() as int);
                assert(outs1 =~= outs0.push(a1.last()));
                assert(outs1.drop_last() =~= outs0);
                assert(a1.subrange(0, a0.len() as int) =~= a0);
            }
            if let Some(info) = found {
                return Ok(info);
            }
            proof {
                let a1 = self.tx_answers();
                let outs0 = ab.subrange(a0.len() as int, ab.len() as int);
                let outs1 = a1.subrange(a0.len() as int, a1.len() as int);
                assert forall|k: int| 0 <= k < outs1.len() implies match #[trigger] outs1[k] {
                    Ok(bytes) => !get_mac_accepted(bytes, bytes.len() as int),
                    Err(e) => e == ProtocolError::Usb(UsbError::Timeout),
                } by {
                    if k < outs0.len() {
                        assert(outs0[k] == outs1[k]);
                    }
                }
            }
            i += 1;
        }
        assert(packets_of(self.tx_trace()) == packets_of(start) + scan_packets(39nat));
        Err(ProtocolError::NoMasterFound)
    }

    /// Poll the RX for the device list (one GetDev round-trip): flush, send
    /// CMD_GET_DEV, read up to 512 bytes within 200 ms. A timeout is
    /// `NoResponse`; an answer that is no GetDev echo is `UnexpectedResponse`.
    pub fn get_dev(&mut self) -> (r: Result<GetDevReport, ProtocolError>)
        ensures
            !old(self).rx_present() ==> r == Err::<GetDevReport, ProtocolError>(
                ProtocolError::RxUnavailable,
            ),
            r is Ok ==> final(self).rx_trace() == old(self).rx_trace().push(
                WireStep::Packet(cmd64_spec(USB_CMD_SEND_RF, 0x01, 0, 0)),
            ),
            r matches Ok(rep) ==> exists|bytes: Seq<u8>| #[trigger] report_parsed_from(rep, bytes),
            old(self).rx_present() ==> getdev_exchange(
                old(self).rx_trace(),
                final(self).rx_trace(),
                old(self).rx_answers(),
                final(self).rx_answers(),
                r,
            ),
            final(self).rx_present() == old(self).rx_present(),
            final(self).tx_trace() == old(self).tx_trace(),
            final(self).tx_answers() == old(self).tx_answers(),
    {
        let mut rx = match self.rx.take() {
            Some(rx) => rx,
            None => return Err(ProtocolError::RxUnavailable),
        };
        rx.read_flush();
        let cmd = cmd_get_dev();
        if let Err(e) = rx.write(cmd.as_slice(), 1000) {
            self.rx_log = Ghost(self.rx_log@.push(WireStep::Refused(cmd@, e)));
            self.rx = Some(rx);
            return Err(e);
        }
        self.rx_log = Ghost(self.rx_log@.push(WireStep::Packet(cmd@)));
        let answer = rx.read(512, 200);
        match &answer {
            Ok(v) => {
                self.rx_reads = Ghost(self.rx_reads@.push(Ok(v@)));
            },
            Err(e) => {
                self.rx_reads = Ghost(self.rx_reads@.push(Err(*e)));
            },
        }
        proof {
            assert(self.rx_reads@.drop_last() =~= old(self).rx_answers());
        }
        self.rx = Some(rx);
        let response = match answer {
            Ok(resp) => resp,
            Err(ProtocolError::Usb(UsbError::Timeout)) => {
                return Err(ProtocolError::NoResponse { op: "GetDev" });
            },
            Err(e) => return Err(e),
        };
        match parse_getdev_response(response.as_slice(), response.len()) {
            Some(rep) => {
                assert(response@.subrange(0, response@.len() as int) =~= response@);
                assert(report_parsed_from(rep, response@));
                Ok(rep)
            },
            None => {
                let got = if response.len() > 0 {
                    response[0]
                } else {
                    0
                };
                Err(ProtocolError::UnexpectedResponse { op: "GetDev", expected: USB_CMD_SEND_RF, got })
            },
        }
    }

    /// Send one 240-byte RF frame as 4 USB chunks with the 1 ms inter-chunk
    /// gap the firmware needs. A failed write ends the frame there.
    pub fn send_rf_frame(&mut self, rf: &[u8; 240], channel: u8, rx_type: u8) -> (r: Result<(), ProtocolError>)
        ensures
            r is Ok ==> final(self).tx_trace() == old(self).tx_trace() + rf_steps(rf@, channel, rx_type),
            r matches Err(e) ==> stopped_at(
                rf_steps(rf@, channel, rx_type),
                old(self).tx_trace(),
                final(self).tx_trace(),
                e,
            ),
            final(self).rx_present() == old(self).rx_present(),
            final(self).rx_trace() == old(self).rx_trace(),
    {
        let packets = usb_chunks(rf, channel, rx_type);
        let ghost start = self.tx_trace();
        let ghost steps = rf_steps(rf@, channel, rx_type);
        let mut c: usize = 0;
        while c < 4
            invariant
                c <= 4,
                steps == rf_steps(rf@, channel, rx_type),
                forall|k: int| 0 <= k < 4 ==> #[trigger] packets@[k]@ == usb_packet_spec(rf@, k, channel, rx_type),
                self.tx_trace() == start + steps.take(2 * c),
                self.rx_present() == old(self).rx_present(),
                self.rx_trace() == old(self).rx_trace(),
                start == old(self).tx_trace(),
            decreases 4 - c,
        {
            let packet = packets[c];
            match self.tx_write(packet.as_slice()) {
                Ok(_) => {},
                Err(e) => {
                    assert(steps[2 * c as int] == WireStep::Packet(packet@));
                    assert(stopped_at(steps, start, self.tx_trace(), e));
                    return Err(e);
                },
            }
            self.pause_ms(1);
            proof {
                assert(steps.take(2 * c + 2) =~= steps.take(2 * c).push(WireStep::Packet(packet@)).push(
                    WireStep::Pause(1),
                ));
            }
            c += 1;
        }
        assert(steps.take(8) =~= steps);
        Ok(())
    }

    /// Send a bind (or unbind) frame 6× with 30 ms gaps between sends (no gap
    /// after the last). The repetition compensates for RF packet loss during
    /// the handover window. `channel` and `rx_type` are the device's CURRENT
    /// reported channel and rx_type (not the target).
    pub fn send_bind_burst(&mut self, frame: &[u8; 240], channel: u8, rx_type: u8) -> (r: Result<(), ProtocolError>)
        ensures
            r is Ok ==> final(self).tx_trace() == old(self).tx_trace() + spaced(
                rf_steps(frame@, channel, rx_type),
                6,
                30,
            ),
            r matches Err(e) ==> stopped_at(
                spaced(rf_steps(frame@, channel, rx_type), 6, 30),
                old(self).tx_trace(),
                final(self).tx_trace(),
                e,
            ),
            old(self).tx_trace().is_prefix_of(final(self).tx_trace()),
            final(self).rx_present() == old(self).rx_present(),
            final(self).rx_trace() == old(self).rx_trace(),
    {
        let ghost start = self.tx_trace();
        let ghost p = rf_steps(frame@, channel, rx_type);
        if let Err(e) = self.send_rf_frame(frame, channel, rx_type) {
            proof {
                assert(start + spaced_head(p, 0, 30) =~= start);
                lemma_spaced_stop(p, 0, 6, 30, start, self.tx_trace(), e);
                lemma_stopped_extends(spaced(p, 6, 30), start, self.tx_trace(), e);
            }
            return Err(e);
        }
        let mut i: u8 = 1;
        while i < 6
            invariant
                1 <= i <= 6,
                p == rf_steps(frame@, channel, rx_type),
                self.tx_trace() == start + spaced(p, i as nat, 30),
                self.rx_present() == old(self).rx_present(),
                self.rx_trace() == old(self).rx_trace(),
                start == old(self).tx_trace(),
            decreases 6 - i,
        {
            self.pause_ms(30);
            assert(self.tx_trace() == start + spaced(p, i as nat, 30) + seq![WireStep::Pause(30)]);
            match self.send_rf_frame(frame, channel, rx_type) {
                Ok(_) => {},
                Err(e) => {
                    proof {
                        assert(start + spaced_head(p, i as nat, 30) =~= start + spaced(p, i as nat, 30)
                            + seq![WireStep::Pause(30)]);
                        lemma_spaced_stop(p, i as nat, 6, 30, start, self.tx_trace(), e);
                        lemma_stopped_extends(spaced(p, 6, 30), start, self.tx_trace(), e);
                    }
                    return Err(e);
                },
            }
            proof {
                assert(spaced(p, (i + 1) as nat, 30) == spaced(p, i as nat, 30) + seq![
                    WireStep::Pause(30),
                ] + p);
                assert(start + spaced(p, i as nat, 30) + seq![WireStep::Pause(30)] + p =~= start
                    + spaced(p, (i + 1) as nat, 30));
            }
            i += 1;
        }
        proof {
            let t = self.tx_trace();
            assert(t.subrange(0, start.len() as int) =~= start);
        }
        Ok(())
    }

    /// Persist the current bind table to device flash: send a SaveConfig
    /// `frame` 3× on the master's channel, addressed with RX type 0xFF, with
    /// 200 ms gaps between sends (none after the last) for the flash write to
    /// complete. Callers should follow this with an RF settle window before
    /// resuming normal RF traffic.
    pub fn send_save_config(&mut self, frame: &[u8; 240], master_channel: u8) -> (r: Result<(), ProtocolError>)
        ensures
            r is Ok ==> final(self).tx_trace() == old(self).tx_trace() + spaced(
                rf_steps(frame@, master_channel, 0xFF),
                3,
                200,
            ),
            r matches Err(e) ==> stopped_at(
                spaced(rf_steps(frame@, master_channel, 0xFF), 3, 200),
                old(self).tx_trace(),
                final(self).tx_trace(),
                e,
            ),
            old(self).tx_trace().is_prefix_of(final(self).tx_trace()),
            final(self).rx_present() == old(self).rx_present(),
            final(self).rx_trace() == old(self).rx_trace(),
    {
        let ghost start = self.tx_trace();
        let ghost p = rf_steps(frame@, master_channel, 0xFF);
        if let Err(e) = self.send_rf_frame(frame, master_channel, 0xFF) {
            proof {
                assert(start + spaced_head(p, 0, 200) =~= start);
                lemma_spaced_stop(p, 0, 3, 200, start, self.tx_trace(), e);
                lemma_stopped_extends(spaced(p, 3, 200), start, self.tx_trace(), e);
            }
            return Err(e);
        }
        let mut i: u8 = 1;
        while i < 3
            invariant
                1 <= i <= 3,
                p == rf_steps(frame@, master_channel, 0xFF),
                self.tx_trace() == start + spaced(p, i as nat, 200),
                self.rx_present() == old(self).rx_present(),
                self.rx_trace() == old(self).rx_trace(),
                start == old(self).tx_trace(),
            decreases 3 - i,
        {
            self.pause_ms(200);
            assert(self.tx_trace() == start + spaced(p, i as nat, 200) + seq![WireStep::Pause(200)]);
            match self.send_rf_frame(frame, master_channel, 0xFF) {
                Ok(_) => {},
                Err(e) => {
                    proof {
                        assert(start + spaced_head(p, i as nat, 200) =~= start + spaced(p, i as nat, 200)
                            + seq![WireStep::Pause(200)]);
                        lemma_spaced_stop(p, i as nat, 3, 200, start, self.tx_trace(), e);
                        lemma_stopped_extends(spaced(p, 3, 200), start, self.tx_trace(), e);
                    }
                    return Err(e);
                },
            }
            proof {
                assert(spaced(p, (i + 1) as nat, 200) == spaced(p, i as nat, 200) + seq![
                    WireStep::Pause(200),
                ] + p);
                assert(start + spaced(p, i as nat, 200) + seq![WireStep::Pause(200)] + p =~= start
                    + spaced(p, (i + 1) as nat, 200));
            }
            i += 1;
        }
        proof {
            let t = self.tx_trace();
            assert(t.subrange(0, start.len() as int) =~= start);
        }
        Ok(())
    }

    /// Upload an already-compressed RGB animation (or single frame) to a
    /// device: check the animation's shape and the payload size, frame the
    /// payload, send the header frame `header_repeats` times (at least once,
    /// 2 ms apart for up to two sends, else 20 ms) and then every data frame
    /// once. Returns the effect index sent (compare against future device
    /// records to detect firmware drift).
    ///
    /// `compressed` is the tinyuz compression of `rgb_payload(led_frames)`.
    pub fn upload_rgb_compressed(
        &mut self,
        device_mac: &[u8; 6],
        master_mac: &[u8; 6],
        channel: u8,
        rx_type: u8,
        led_frames: &[Vec<[u8; 3]>],
        compressed: &[u8],
        interval_ms: u16,
        header_repeats: u8,
    ) -> (r: Result<[u8; 4], ProtocolError>)
        ensures
            led_frames_check(led_frames@) matches Err(e) ==> r == Err::<[u8; 4], ProtocolError>(
                ProtocolError::InvalidInput(e),
            ) && final(self).tx_trace() == old(self).tx_trace(),
            led_frames_check(led_frames@) is Ok && compressed@.len() > RGB_MAX_COMPRESSED ==> r
                == Err::<[u8; 4], ProtocolError>(
                ProtocolError::InvalidInput(InputError::PayloadTooLarge(compressed@.len() as usize)),
            ) && final(self).tx_trace() == old(self).tx_trace(),
            r matches Ok(ix) ==> ix@ == effect_index_of_bytes(frame_bytes(frames_view(led_frames@))),
            r is Ok ==> compressed@.len() <= RGB_MAX_COMPRESSED,
            r matches Ok(ix) ==> (led_frames_check(led_frames@) matches Ok((n, t))
                && final(self).tx_trace() == old(self).tx_trace() + upload_steps(
                rgb_upload_frames(device_mac@, master_mac@, ix@, compressed@, n, t, interval_ms),
                channel,
                rx_type,
                header_repeats,
            )),
            led_frames_check(led_frames@) matches Ok((n, t)) ==> (compressed@.len() <= RGB_MAX_COMPRESSED
                ==> (r matches Err(e) ==> stopped_at(
                upload_steps(
                    rgb_upload_frames(
                        device_mac@,
                        master_mac@,
                        effect_index_of_bytes(frame_bytes(frames_view(led_frames@))),
                        compressed@,
                        n,
                        t,
                        interval_ms,
                    ),
                    channel,
                    rx_type,
                    header_repeats,
                ),
                old(self).tx_trace(),
                final(self).tx_trace(),
                e,
            ))),
            old(self).tx_trace().is_prefix_of(final(self).tx_trace()),
            final(self).rx_present() == old(self).rx_present(),
            final(self).rx_trace() == old(self).rx_trace(),
    {
        let (led_num, total_frames) = validate_led_frames(led_frames)?;
        let effect_index = effect_index_from_frames(led_frames);
        if compressed.len() > RGB_MAX_COMPRESSED {
            return Err(ProtocolError::InvalidInput(InputError::PayloadTooLarge(compressed.len())));
        }
        let rf_frames = rgb_frames(
            device_mac,
            master_mac,
            &effect_index,
            compressed,
            led_num,
            total_frames,
            interval_ms,
        );
        let ghost all = rgb_upload_frames(
            device_mac@,
            master_mac@,
            effect_index@,
            compressed@,
            led_num,
            total_frames,
            interval_ms,
        );
        assert(forall|k: int| 0 <= k < rf_frames@.len() ==> #[trigger] rf_frames@[k]@ == all[k]);
        let ghost start = self.tx_trace();
        let ghost p = rf_steps(all[0], channel, rx_type);
        let repeats: u8 = if header_repeats == 0 {
            1
        } else {
            header_repeats
        };
        let gap: u64 = if repeats <= 2 {
            2
        } else {
            20
        };
        let header = &rf_frames[0];
        let ghost tail = frames_steps(all.drop_first(), channel, rx_type);
        assert(upload_steps(all, channel, rx_type, header_repeats) == spaced(p, repeats as nat, gap) + tail);
        if let Err(e) = self.send_rf_frame(header, channel, rx_type) {
            proof {
                assert(start + spaced_head(p, 0, gap) =~= start);
                lemma_upload_stop_header(p, 0, repeats as nat, gap, tail, start, self.tx_trace(), e);
            }
            return Err(e);
        }
        let mut r: u8 = 1;
        while r < repeats
            invariant
                1 <= r <= repeats,
                led_frames_check(led_frames@) == Ok::<(u8, u16), InputError>((led_num, total_frames)),
                compressed@.len() <= RGB_MAX_COMPRESSED,
                repeats as nat == header_sends(header_repeats),
                gap == header_gap_ms(header_repeats),
                header@ == all[0],
                p == rf_steps(all[0], channel, rx_type),
                self.tx_trace() == start + spaced(p, r as nat, gap),
                tail == frames_steps(all.drop_first(), channel, rx_type),
                all == rgb_upload_frames(
                    device_mac@,
                    master_mac@,
                    effect_index_of_bytes(frame_bytes(frames_view(led_frames@))),
                    compressed@,
                    led_num,
                    total_frames,
                    interval_ms,
                ),
                upload_steps(all, channel, rx_type, header_repeats) == spaced(p, repeats as nat, gap) + tail,
                self.rx_present() == old(self).rx_present(),
                self.rx_trace() == old(self).rx_trace(),
                start == old(self).tx_trace(),
            decreases repeats - r,
        {
            self.pause_ms(gap);
            assert(self.tx_trace() =~= start + spaced(p, r as nat, gap) + seq![WireStep::Pause(gap)]);
            match self.send_rf_frame(header, channel, rx_type) {
                Ok(_) => {},
                Err(e) => {
                    proof {
                        assert(start + spaced_head(p, r as nat, gap) =~= start + spaced(p, r as nat, gap)
                            + seq![WireStep::Pause(gap)]);
                        lemma_upload_stop_header(p, r as nat, repeats as nat, gap, tail, start, self.tx_trace(), e);
                    }
                    return Err(e);
                },
            }
            proof {
                assert(start + spaced(p, r as nat, gap) + seq![WireStep::Pause(gap)] + p =~= start
                    + spaced(p, (r + 1) as nat, gap));
            }
            r += 1;
        }
        let ghost head = start + spaced(p, repeats as nat, gap);
        let mut k: usize = 1;
        while k < rf_frames.len()
            invariant
                1 <= k <= rf_frames@.len(),
                led_frames_check(led_frames@) == Ok::<(u8, u16), InputError>((led_num, total_frames)),
                compressed@.len() <= RGB_MAX_COMPRESSED,
                rf_frames@.len() == all.len(),
                forall|j: int| 0 <= j < rf_frames@.len() ==> #[trigger] rf_frames@[j]@ == all[j],
                self.tx_trace() == head + frames_steps(all.drop_first().take(k - 1), channel, rx_type),
                head.len() >= start.len(),
                head.subrange(0, start.len() as int) == start,
                head == start + spaced(p, repeats as nat, gap),
                tail == frames_steps(all.drop_first(), channel, rx_type),
                all == rgb_upload_frames(
                    device_mac@,
                    master_mac@,
                    effect_index_of_bytes(frame_bytes(frames_view(led_frames@))),
                    compressed@,
                    led_num,
                    total_frames,
                    interval_ms,
                ),
                upload_steps(all, channel, rx_type, header_repeats) == spaced(p, repeats as nat, gap) + tail,
                self.rx_present() == old(self).rx_present(),
                self.rx_trace() == old(self).rx_trace(),
                start == old(self).tx_trace(),
            decreases rf_frames@.len() - k,
        {
            let ghost before = self.tx_trace();
            match self.send_rf_frame(&rf_frames[k], channel, rx_type) {
                Ok(_) => {},
                Err(e) => {
                    proof {
                        assert(before == start + spaced(p, repeats as nat, gap) + frames_steps(
                            all.drop_first().take(k - 1),
                            channel,
                            rx_type,
                        ));
                        lemma_upload_stop_frame(
                            all,
                            k as int,
                            channel,
                            rx_type,
                            spaced(p, repeats as nat, gap),
                            start,
                            self.tx_trace(),
                            e,
                        );
                        lemma_stopped_extends(spaced(p, repeats as nat, gap) + tail, start, self.tx_trace(), e);
                    }
                    return Err(e);
                },
            }
            proof {
                let fs = all.drop_first().take(k as int);
                assert(fs.drop_last() =~= all.drop_first().take(k - 1));
                assert(fs.last() == all[k as int]);
            }
            k += 1;
        }
        proof {
            assert(all.drop_first().take(all.len() - 1) =~= all.drop_first());
            let t = self.tx_trace();
            assert(t.subrange(0, start.len() as int) =~= start);
            assert(head + frames_steps(all.drop_first(), channel, rx_type) =~= start + upload_steps(
                all,
                channel,
                rx_type,
                header_repeats,
            ));
        }
        Ok(effect_index)
    }
}

} // verus!
