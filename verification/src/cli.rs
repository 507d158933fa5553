//! The command-line tool's logic: argument checks (MAC, color, percent),
//! device lookup with retries, and the verdict on a bind/unbind's progress
//! as reported by the daemon. Printing and IPC framing stay with the tool.

use vstd::prelude::*;
use vstd::string::StringExecFns;
use crate::consts::{cmd64_spec, USB_CMD_SEND_RF};
use crate::dongle::{getdev_exchange, getdev_outcome, report_parsed_from, Dongle};
use crate::hex::{
    chars_of, check_strict_mac, mac_text, mac_to_string, parse_color_chars, parsed_color,
    split_colon, strict_mac_text, MacError,
};
use crate::io::{ProtocolError, UsbIo, WireStep};
use crate::device_kind::{is_aio_kind, led_count_override_of, leds_per_fan_of, DeviceKind};
use crate::effects::{FanLayout, Geometry};
use crate::record::{total_leds_of, DeviceRecord, GetDevReport};

verus! {

/// Why a command-line operation failed.
#[derive(Debug, Clone, Copy, PartialEq, Eq)]
pub enum CliError {
    /// The color is not six hex digits (after optional '#'s).
    BadColor,
    /// The percent is above 100.
    BadPercent(u8),
    /// No device has this list index.
    NoDevice(u8),
    /// Opening the dongles failed.
    Open(ProtocolError),
    /// The dongle failed.
    Protocol(ProtocolError),
}

/// Validate that `s` is a MAC address written as six colon-separated octets
/// of two hex digits each (either case; no normalization).
pub fn validate_mac(s: &str) -> (r: Result<(), MacError>)
    ensures
        r is Ok <==> strict_mac_text(s@),
        r matches Err(MacError::OctetCount(n)) ==> n == split_colon(s@).len() && n != 6,
        r matches Err(MacError::OctetShape(i)) ==> i < 6 && split_colon(s@).len() == 6,
        !(r matches Err(MacError::Octet(_))),
{
    let cs = chars_of(s);
    check_strict_mac(&cs)
}

/// Parse a color written as six hex digits, optionally after '#'s
/// ("FF0000", "#00ff00").
pub fn parse_hex_color(s: &str) -> (r: Result<[u8; 3], CliError>)
    ensures
        r is Ok <==> parsed_color(s@) is Some,
        r matches Ok(c) ==> parsed_color(s@) == Some(c@),
        r is Err ==> r == Err::<[u8; 3], CliError>(CliError::BadColor),
{
    let cs = chars_of(s);
    match parse_color_chars(&cs) {
        Some(c) => Ok(c),
        None => Err(CliError::BadColor),
    }
}

/// A MAC as "aa:bb:cc:dd:ee:ff" (lowercase hex).
pub fn mac_str(mac: &[u8; 6]) -> (s: String)
    ensures
        s@ == mac_text(mac@),
{
    mac_to_string(mac)
}

/// The raw PWM byte for a speed percent: percent × 255 / 100.
pub fn pwm_of_percent(percent: u8) -> (r: Result<u8, CliError>)
    ensures
        percent > 100 ==> r == Err::<u8, CliError>(CliError::BadPercent(percent)),
        percent <= 100 ==> r == Ok::<u8, CliError>((percent as int * 255 / 100) as u8),
{
    if percent > 100 {
        return Err(CliError::BadPercent(percent));
    }
    assert(percent as int * 255 <= 25500) by (nonlinear_arith)
        requires
            percent <= 100,
    ;
    assert(percent as int * 255 / 100 <= 255) by (nonlinear_arith)
        requires
            percent as int * 255 <= 25500,
    ;
    Ok((percent as u16 * 255 / 100) as u8)
}

/// Open the dongles for a one-shot command.
pub fn open_dongle<T: UsbIo>() -> (r: Result<Dongle<T>, CliError>)
    ensures
        r matches Ok(d) ==> d.tx_trace().len() == 0 && d.rx_trace().len() == 0,
        r matches Err(e) ==> e is Open,
{
    match Dongle::<T>::open() {
        Ok(d) => Ok(d),
        Err(e) => Err(CliError::Open(e)),
    }
}

/// Whether a GetDev result is a non-empty device list.
pub open spec fn nonempty_report(g: Result<GetDevReport, ProtocolError>) -> bool {
    g matches Ok(rep) && rep.devices@.len() > 0
}

/// GetDev rounds made one after another: round `i` took the RX trace from
/// `ts[i]` to `ts[i + 1]` and the RX answers from `ans[i]` to `ans[i + 1]`,
/// and gave `rs[i]`.
pub open spec fn getdev_rounds(
    ts: Seq<Seq<WireStep>>,
    ans: Seq<Seq<Result<Seq<u8>, ProtocolError>>>,
    rs: Seq<Result<GetDevReport, ProtocolError>>,
) -> bool {
    &&& ts.len() == rs.len() + 1
    &&& ans.len() == rs.len() + 1
    &&& forall|i: int|
        0 <= i < rs.len() ==> #[trigger] getdev_exchange(ts[i], ts[i + 1], ans[i], ans[i + 1], rs[i])
}

/// The result of the last round that gave a device list, if any.
pub open spec fn last_report(rs: Seq<Result<GetDevReport, ProtocolError>>) -> Option<GetDevReport>
    decreases rs.len(),
{
    if rs.len() == 0 {
        None
    } else {
        match rs.last() {
            Ok(rep) => Some(rep),
            Err(_) => last_report(rs.drop_last()),
        }
    }
}

/// The error of the last round that failed, if any.
pub open spec fn last_error(rs: Seq<Result<GetDevReport, ProtocolError>>) -> Option<ProtocolError>
    decreases rs.len(),
{
    if rs.len() == 0 {
        None
    } else {
        match rs.last() {
            Ok(_) => last_error(rs.drop_last()),
            Err(e) => Some(e),
        }
    }
}

/// The rounds a poll makes: up to 5, stopping after the first that gives a
/// non-empty device list.
pub open spec fn poll_rounds(rs: Seq<Result<GetDevReport, ProtocolError>>) -> bool {
    &&& 1 <= rs.len() <= 5
    &&& forall|i: int| 0 <= i < rs.len() - 1 ==> !nonempty_report(#[trigger] rs[i])
    &&& rs.len() < 5 ==> nonempty_report(rs.last())
}

/// What a poll returns from its rounds: the first non-empty list; else the
/// last empty list; else the last error.
pub open spec fn poll_choice(rs: Seq<Result<GetDevReport, ProtocolError>>) -> Result<GetDevReport, ProtocolError> {
    if rs.len() > 0 && nonempty_report(rs.last()) {
        rs.last()
    } else {
        match last_report(rs) {
            Some(rep) => Ok(rep),
            None => match last_error(rs) {
                Some(e) => Err(e),
                None => Err(ProtocolError::RxUnavailable),
            },
        }
    }
}

/// A poll took the RX trace from `t0` to `t1` and the RX answers from `a0`
/// to `a1`, made the rounds a poll makes, and came to `r`.
pub open spec fn polled(
    t0: Seq<WireStep>,
    t1: Seq<WireStep>,
    a0: Seq<Result<Seq<u8>, ProtocolError>>,
    a1: Seq<Result<Seq<u8>, ProtocolError>>,
    r: Result<GetDevReport, ProtocolError>,
) -> bool {
    exists|ts: Seq<Seq<WireStep>>, ans: Seq<Seq<Result<Seq<u8>, ProtocolError>>>, rs: Seq<
        Result<GetDevReport, ProtocolError>,
    >|
        #[trigger] getdev_rounds(ts, ans, rs) && ts[0] == t0 && ts.last() == t1 && ans[0] == a0
            && ans.last() == a1 && poll_rounds(rs) && r == poll_choice(rs)
}

/// Poll the device list, up to 5 GetDev rounds 300 ms apart: GetDev can
/// time out sporadically, and the list can be legitimately empty right
/// after a reset. The first non-empty list wins; else the last empty list;
/// else the last error.
pub fn poll_devices<T: UsbIo>(dongle: &mut Dongle<T>) -> (r: Result<GetDevReport, ProtocolError>)
    ensures
        r matches Ok(rep) ==> exists|bytes: Seq<u8>| #[trigger] report_parsed_from(rep, bytes),
        !old(dongle).rx_present() ==> r == Err::<GetDevReport, ProtocolError>(
            ProtocolError::RxUnavailable,
        ),
        old(dongle).rx_present() ==> polled(
            old(dongle).rx_trace(),
            final(dongle).rx_trace(),
            old(dongle).rx_answers(),
            final(dongle).rx_answers(),
            r,
        ),
        final(dongle).rx_present() == old(dongle).rx_present(),
{
    let mut last_empty: Option<GetDevReport> = None;
    let mut last_err: Option<ProtocolError> = None;
    let mut attempt: u8 = 0;
    let ghost mut ts: Seq<Seq<WireStep>> = seq![dongle.rx_trace()];
    let ghost mut ans: Seq<Seq<Result<Seq<u8>, ProtocolError>>> = seq![dongle.rx_answers()];
    let ghost mut rs: Seq<Result<GetDevReport, ProtocolError>> = Seq::empty();
    while attempt < 5
        invariant
            attempt <= 5,
            dongle.rx_present() == old(dongle).rx_present(),
            last_empty matches Some(rep) ==> exists|bytes: Seq<u8>| #[trigger] report_parsed_from(rep, bytes),
            attempt > 0 ==> last_empty is Some || last_err is Some,
            !dongle.rx_present() ==> last_empty is None && (attempt > 0 ==> last_err == Some(
                ProtocolError::RxUnavailable,
            )),
            last_empty matches Some(rep) ==> rep.devices@.len() == 0,
            dongle.rx_present() ==> ({
                &&& getdev_rounds(ts, ans, rs)
                &&& ts[0] == old(dongle).rx_trace()
                &&& ts.last() == dongle.rx_trace()
                &&& ans[0] == old(dongle).rx_answers()
                &&& ans.last() == dongle.rx_answers()
                &&& rs.len() == attempt
                &&& forall|i: int| 0 <= i < rs.len() ==> !nonempty_report(#[trigger] rs[i])
                &&& last_empty == last_report(rs)
                &&& last_err == last_error(rs)
            }),
        decreases 5 - attempt,
    {
        let ghost d0 = *dongle;
        let got = dongle.get_dev();
        let ghost g = got;
        proof {
            if d0.rx_present() {
                assert(getdev_exchange(d0.rx_trace(), dongle.rx_trace(), d0.rx_answers(), dongle.rx_answers(), got));
                let ts2 = ts.push(dongle.rx_trace());
                let ans2 = ans.push(dongle.rx_answers());
                let rs2 = rs.push(g);
                assert forall|i: int| 0 <= i < rs2.len() implies #[trigger] getdev_exchange(
                    ts2[i],
                    ts2[i + 1],
                    ans2[i],
                    ans2[i + 1],
                    rs2[i],
                ) by {
                    if i < rs.len() {
                        assert(getdev_exchange(ts[i], ts[i + 1], ans[i], ans[i + 1], rs[i]));
                    }
                }
                assert(rs2.drop_last() =~= rs);
                ts = ts2;
                ans = ans2;
                rs = rs2;
            }
        }
        match got {
            Ok(r) => {
                if r.devices.len() > 0 {
                    proof {
                        if d0.rx_present() {
                            assert forall|i: int| 0 <= i < rs.len() - 1 implies !nonempty_report(
                                #[trigger] rs[i],
                            ) by {
                                assert(rs[i] == rs.drop_last()[i]);
                            }
                            assert(getdev_rounds(ts, ans, rs));
                        }
                    }
                    return Ok(r);
                }
                last_empty = Some(r);
            },
            Err(e) => last_err = Some(e),
        }
        proof {
            if d0.rx_present() {
                assert forall|i: int| 0 <= i < rs.len() implies !nonempty_report(#[trigger] rs[i]) by {
                    if i < rs.len() - 1 {
                        assert(rs[i] == rs.drop_last()[i]);
                    }
                }
            }
        }
        dongle.pause_ms(300);
        attempt += 1;
    }
    proof {
        if dongle.rx_present() {
            assert(getdev_rounds(ts, ans, rs));
        }
    }
    match last_empty {
        Some(r) => Ok(r),
        None => match last_err {
            Some(e) => Err(e),
            None => Err(ProtocolError::RxUnavailable),
        },
    }
}

/// The position of the first record at or after `i` with list index `index`.
pub open spec fn index_from(devs: Seq<DeviceRecord>, index: u8, i: int) -> Option<int>
    decreases devs.len() - i,
{
    if i < 0 || i >= devs.len() {
        None
    } else if devs[i].list_index == index {
        Some(i)
    } else {
        index_from(devs, index, i + 1)
    }
}

/// The first record with list index `index`, if any.
pub open spec fn record_at_index(devs: Seq<DeviceRecord>, index: u8) -> Option<DeviceRecord> {
    match index_from(devs, index, 0) {
        Some(k) => Some(devs[k]),
        None => None,
    }
}

/// A found position is in range and has the list index.
pub proof fn lemma_index_from_found(devs: Seq<DeviceRecord>, index: u8, i: int)
    requires
        0 <= i,
    ensures
        index_from(devs, index, i) matches Some(k) ==> i <= k < devs.len() && devs[k].list_index
            == index,
    decreases devs.len() - i,
{
    if i < devs.len() && devs[i].list_index != index {
        lemma_index_from_found(devs, index, i + 1);
    }
}

/// The first record of a device list whose list index is `index`.
pub fn device_at_index(devs: &Vec<DeviceRecord>, index: u8) -> (r: Option<DeviceRecord>)
    ensures
        r == record_at_index(devs@, index),
        r matches Some(rec) ==> rec.list_index == index,
{
    let mut i: usize = 0;
    while i < devs.len()
        invariant
            i <= devs@.len(),
            index_from(devs@, index, 0) == index_from(devs@, index, i as int),
        decreases devs@.len() - i,
    {
        if devs[i].list_index == index {
            return Some(devs[i]);
        }
        i += 1;
    }
    None
}

/// Whether `rec` is the device at list index `index` of a GetDev report
/// parsed from some dongle answer.
pub open spec fn found_in(rep: GetDevReport, index: u8, rec: DeviceRecord) -> bool {
    &&& exists|bytes: Seq<u8>| #[trigger] report_parsed_from(rep, bytes)
    &&& record_at_index(rep.devices@, index) == Some(rec)
}

/// A device list parsed from some GetDev answer holds no device at list
/// index `index`.
pub open spec fn missing_in(rep: GetDevReport, index: u8) -> bool {
    &&& exists|bytes: Seq<u8>| #[trigger] report_parsed_from(rep, bytes)
    &&& record_at_index(rep.devices@, index) is None
}

/// Find the device at list index `index` (as `llw devices` numbers them)
/// in a fresh device list.
pub fn find_device<T: UsbIo>(dongle: &mut Dongle<T>, index: u8) -> (r: Result<DeviceRecord, CliError>)
    ensures
        r matches Ok(rec) ==> rec.list_index == index,
        r matches Ok(rec) ==> exists|rep: GetDevReport| #[trigger] found_in(rep, index, rec),
        !old(dongle).rx_present() ==> r == Err::<DeviceRecord, CliError>(
            CliError::Protocol(ProtocolError::RxUnavailable),
        ),
        r matches Err(e) ==> e is Protocol || e == CliError::NoDevice(index),
        r == Err::<DeviceRecord, CliError>(CliError::NoDevice(index)) ==> exists|rep: GetDevReport|
            #[trigger] missing_in(rep, index),
        old(dongle).rx_present() ==> exists|p: Result<GetDevReport, ProtocolError>|
            #[trigger] polled(
                old(dongle).rx_trace(),
                final(dongle).rx_trace(),
                old(dongle).rx_answers(),
                final(dongle).rx_answers(),
                p,
            ) && match p {
                Ok(rep) => match record_at_index(rep.devices@, index) {
                    Some(rec) => r == Ok::<DeviceRecord, CliError>(rec),
                    None => r == Err::<DeviceRecord, CliError>(CliError::NoDevice(index)),
                },
                Err(e) => r == Err::<DeviceRecord, CliError>(CliError::Protocol(e)),
            },
{
    let ghost d0 = *dongle;
    let polled_r = poll_devices(dongle);
    proof {
        if d0.rx_present() {
            assert(polled(d0.rx_trace(), dongle.rx_trace(), d0.rx_answers(), dongle.rx_answers(), polled_r));
        }
    }
    let report = match polled_r {
        Ok(r) => r,
        Err(e) => return Err(CliError::Protocol(e)),
    };
    match device_at_index(&report.devices, index) {
        Some(rec) => {
            assert(found_in(report, index, rec));
            Ok(rec)
        },
        None => {
            assert(missing_in(report, index));
            Err(CliError::NoDevice(index))
        },
    }
}

/// Where a bind/unbind stands, judged from one daemon status reply.
#[derive(Debug, Clone, Copy, PartialEq, Eq, Structural)]
pub enum OpProgress {
    /// The daemon reports this op as failed.
    Failed,
    /// The op reached its goal.
    Done,
    /// Still converging.
    Converging,
}

/// The pending op of a status reply, as (op, mac, state) texts.
pub struct PendingView {
    pub op: String,
    pub mac: String,
    pub state: String,
}

/// The verdict on one status reply: failed when the pending op is this op
/// on this MAC in state "failed"; done when (bind) the MAC is configured, or
/// (unbind) it is not, and no live pending op names it; else converging.
pub open spec fn progress_of(
    is_unbind: bool,
    mac: Seq<char>,
    pending: Option<(Seq<char>, Seq<char>, Seq<char>)>,
    configured: Seq<Seq<char>>,
) -> OpProgress {
    let op_name = if is_unbind {
        "unbind"@
    } else {
        "bind"@
    };
    let listed = exists|i: int| 0 <= i < configured.len() && #[trigger] configured[i] == mac;
    let still_pending = pending matches Some(p) && p.1 == mac && p.2 != "failed"@;
    if pending matches Some(p) && p.0 == op_name && p.1 == mac && p.2 == "failed"@ {
        OpProgress::Failed
    } else if (if is_unbind {
        !listed
    } else {
        listed
    }) && !still_pending {
        OpProgress::Done
    } else {
        OpProgress::Converging
    }
}

/// The texts of a pending-op view.
pub open spec fn pending_texts(p: Option<&PendingView>) -> Option<(Seq<char>, Seq<char>, Seq<char>)> {
    match p {
        Some(v) => Some((v.op@, v.mac@, v.state@)),
        None => None,
    }
}

/// Judge a bind (or unbind) of `mac` from a status reply: its pending op and
/// the MACs of the configured devices.
pub fn op_progress(
    is_unbind: bool,
    mac: &String,
    pending: Option<&PendingView>,
    configured: &Vec<String>,
) -> (v: OpProgress)
    ensures
        v == progress_of(
            is_unbind,
            mac@,
            pending_texts(pending),
            Seq::new(configured@.len(), |i: int| configured@[i]@),
        ),
{
    let op_name = if is_unbind {
        String::from_str("unbind")
    } else {
        String::from_str("bind")
    };
    let failed_text = String::from_str("failed");
    let ghost cv = Seq::new(configured@.len(), |i: int| configured@[i]@);
    if let Some(p) = pending {
        if p.op == op_name && p.mac == *mac && p.state == failed_text {
            return OpProgress::Failed;
        }
    }
    let mut listed = false;
    let mut i: usize = 0;
    while i < configured.len()
        invariant
            i <= configured@.len(),
            cv == Seq::new(configured@.len(), |i: int| configured@[i]@),
            listed == exists|j: int| 0 <= j < i && #[trigger] cv[j] == mac@,
        decreases configured@.len() - i,
    {
        if configured[i] == *mac {
            assert(cv[i as int] == mac@);
            listed = true;
        }
        i += 1;
    }
    let still_pending = match pending {
        Some(p) => p.mac == *mac && !(p.state == failed_text),
        None => false,
    };
    let goal = if is_unbind {
        !listed
    } else {
        listed
    };
    if goal && !still_pending {
        OpProgress::Done
    } else {
        OpProgress::Converging
    }
}

/// Why a hardware probe cannot run on a device.
#[derive(Debug, Clone, Copy, PartialEq, Eq, Structural)]
pub enum ProbeError {
    /// `--block` is zero.
    ZeroBlock,
    /// `--frames` is zero.
    ZeroFrames,
    /// The device reports no LEDs.
    NoLeds,
    /// A fan device kind without a per-fan LED count.
    NoFanLeds,
    /// AIOs have no probe geometry.
    Aio,
    /// A fan device with no LEDs per fan or no fans.
    NoGeometry { leds_per_fan: u8, fan_count: u8 },
}

/// How many LEDs a chase walks on a device: up to 64 of a flat-buffer
/// device's strip, else fan 0's LEDs.
pub open spec fn chase_count_of(kind: DeviceKind, fan_count: u8) -> Result<u16, ProbeError> {
    let total = total_leds_of(kind, fan_count);
    if total == 0 {
        Err(ProbeError::NoLeds)
    } else if led_count_override_of(kind) is Some {
        Ok(if total < 64 {
            total
        } else {
            64u16
        })
    } else if leds_per_fan_of(kind) > 0 {
        Ok(leds_per_fan_of(kind) as u16)
    } else {
        Err(ProbeError::NoFanLeds)
    }
}

/// The number of LEDs a chase probe walks on this device.
pub fn chase_count(rec: &DeviceRecord) -> (r: Result<u16, ProbeError>)
    ensures
        r == chase_count_of(rec.kind, rec.fan_count),
{
    let total = rec.total_leds();
    if total == 0 {
        return Err(ProbeError::NoLeds);
    }
    let lpf = rec.kind.leds_per_fan();
    if rec.kind.led_count_override().is_some() {
        Ok(if total < 64 {
            total
        } else {
            64
        })
    } else if lpf > 0 {
        Ok(lpf as u16)
    } else {
        Err(ProbeError::NoFanLeds)
    }
}

/// Whether LED `led` is lit in chase frame `i`: the block
/// `[i*block, min(i*block + block, total))`.
pub open spec fn chase_lit(i: int, led: int, block: int, total: int) -> bool {
    i * block <= led && led < i * block + block && led < total
}

/// The chase animation: one frame per block position over the first
/// `chase` LEDs (`ceil(chase / block)` frames), each frame as wide as the
/// device (`total` LEDs), lit white in its block and black elsewhere.
pub fn chase_frames(total: u16, chase: u16, block: u8) -> (frames: Vec<Vec<[u8; 3]>>)
    requires
        block >= 1,
        chase as int + block as int <= 65536,
    ensures
        frames@.len() == (chase as int + block as int - 1) / block as int,
        forall|i: int|
            0 <= i < frames@.len() ==> (#[trigger] frames@[i])@.len() == total,
        forall|i: int, led: int|
            0 <= i < frames@.len() && 0 <= led < total ==> #[trigger] frames@[i]@[led] == if chase_lit(
                i,
                led,
                block as int,
                total as int,
            ) {
                [255u8, 255u8, 255u8]
            } else {
                [0u8, 0u8, 0u8]
            },
{
    let b = block as u32;
    let count: u32 = (chase as u32 + b - 1) / b;
    assert(count as int * b as int <= chase as int + b as int) by (nonlinear_arith)
        requires
            count == (chase as int + b as int - 1) / b as int,
            b >= 1,
    ;
    let mut frames: Vec<Vec<[u8; 3]>> = Vec::new();
    let mut i: u32 = 0;
    while i < count
        invariant
            i <= count,
            b == block,
            b >= 1,
            count as int * b as int <= chase as int + b as int,
            chase as int + block as int <= 65536,
            count == (chase as int + b as int - 1) / b as int,
            frames@.len() == i,
            forall|k: int| 0 <= k < i ==> (#[trigger] frames@[k])@.len() == total,
            forall|k: int, led: int|
                0 <= k < i && 0 <= led < total ==> #[trigger] frames@[k]@[led] == if chase_lit(
                    k,
                    led,
                    block as int,
                    total as int,
                ) {
                    [255u8, 255u8, 255u8]
                } else {
                    [0u8, 0u8, 0u8]
                },
        decreases count - i,
    {
        assert(i as int * b as int <= count as int * b as int) by (nonlinear_arith)
            requires
                i <= count,
                b >= 1,
        ;
        let start: u32 = i * b;
        let end: u32 = start + b;
        let mut frame: Vec<[u8; 3]> = Vec::new();
        let mut led: u32 = 0;
        while led < total as u32
            invariant
                led <= total,
                start == i * b,
                end == start + b,
                b == block,
                frame@.len() == led,
                forall|l: int| 0 <= l < led ==> #[trigger] frame@[l] == if chase_lit(
                    i as int,
                    l,
                    block as int,
                    total as int,
                ) {
                    [255u8, 255u8, 255u8]
                } else {
                    [0u8, 0u8, 0u8]
                },
            decreases total - led,
        {
            if led >= start && led < end {
                frame.push([255u8, 255, 255]);
            } else {
                frame.push([0u8, 0, 0]);
            }
            led += 1;
        }
        frames.push(frame);
        i += 1;
    }
    frames
}

/// The geometry a frame-count probe renders for: the strip of a
/// flat-buffer device, or a uniform ring per fan; AIOs and fan devices
/// without LEDs are refused.
pub open spec fn probe_geometry_of(kind: DeviceKind, fan_count: u8) -> Result<Geometry, ProbeError> {
    if is_aio_kind(kind) {
        Err(ProbeError::Aio)
    } else if led_count_override_of(kind) is Some {
        Ok(Geometry::Strip { total: led_count_override_of(kind).unwrap() })
    } else if leds_per_fan_of(kind) == 0 || fan_count == 0 {
        Err(ProbeError::NoGeometry { leds_per_fan: leds_per_fan_of(kind), fan_count })
    } else {
        Ok(
            Geometry::Fans {
                fan_count,
                leds_per_fan: leds_per_fan_of(kind),
                layout: FanLayout::UniformRing,
            },
        )
    }
}

/// The geometry a frame-count probe renders for this device.
pub fn probe_geometry(kind: DeviceKind, fan_count: u8) -> (r: Result<Geometry, ProbeError>)
    ensures
        r == probe_geometry_of(kind, fan_count),
{
    if kind.is_aio() {
        return Err(ProbeError::Aio);
    }
    if let Some(total) = kind.led_count_override() {
        return Ok(Geometry::Strip { total });
    }
    let lpf = kind.leds_per_fan();
    if lpf == 0 || fan_count == 0 {
        return Err(ProbeError::NoGeometry { leds_per_fan: lpf, fan_count });
    }
    Ok(Geometry::Fans { fan_count, leds_per_fan: lpf, layout: FanLayout::UniformRing })
}

/// Whether a device read back zero PWM on every fan while `llw watch` was
/// commanding a speed (a dropout).
pub fn watch_dropout(commanding: bool, rec: &DeviceRecord) -> (b: bool)
    ensures
        b == (commanding && crate::supervisor::is_readback_zero(rec.current_pwm@, rec.fan_count)),
{
    commanding && crate::supervisor::readback_zero(&rec.current_pwm, rec.fan_count)
}

} // verus!
