//! Parsing of GetDev responses: the RX dongle reports all wireless devices
//! on air as 42-byte records.

use vstd::prelude::*;
use crate::consts::USB_CMD_SEND_RF;
use crate::device_kind::{
    DeviceKind, is_aio_kind, kind_of_fan_type_byte, led_count_override_of, leds_per_fan_of,
    pump_led_count_of,
};
use crate::hex::{mac_to_string, mac_text};
use crate::frames::u16_from_be;

verus! {

/// A wireless device as reported by the RX GetDev poll.
///
/// 42-byte record layout:
/// ```text
/// [0-5]   Device MAC        [6-11]  Master MAC       [12] RF channel
/// [13]    RX type           [14-17] System time      [18] Device type
/// [19]    Fan count         [20-23] Effect index     [24-27] Fan-type bytes
/// [27]    Coolant temp °C (AIOs only — overlaps 4th fan-type byte)
/// [28-35] Fan RPM (4× u16 BE)   [36-39] Current PWM (4× u8)
/// [40]    Cmd sequence      [41]    Validation marker (0x1C)
/// ```
#[derive(Debug, Clone, Copy)]
pub struct DeviceRecord {
    pub mac: [u8; 6],
    pub master_mac: [u8; 6],
    pub channel: u8,
    pub rx_type: u8,
    pub device_type: u8,
    pub fan_count: u8,
    pub fan_types: [u8; 4],
    pub fan_rpms: [u16; 4],
    pub current_pwm: [u8; 4],
    pub cmd_seq: u8,
    pub kind: DeviceKind,
    pub list_index: u8,
    /// Coolant temperature in °C. `None` if the device is not an AIO,
    /// or if the sensor byte is 0x00 (sensor absent / not initialized).
    pub coolant_temp_c: Option<u8>,
    /// Effect index the firmware is currently running (drifts on firmware
    /// idle-reset; compare against desired to detect and re-send RGB).
    pub effect_index: [u8; 4],
}

/// Total LEDs of a device: the flat-buffer override, or fans × per-fan + pump.
pub open spec fn total_leds_of(kind: DeviceKind, fan_count: u8) -> u16 {
    match led_count_override_of(kind) {
        Some(n) => n,
        None => (pump_led_count_of(kind) as int + fan_count as int * leds_per_fan_of(kind) as int) as u16,
    }
}

impl DeviceRecord {
    /// Device MAC as "aa:bb:cc:dd:ee:ff" (lowercase hex).
    pub fn mac_str(&self) -> (s: String)
        ensures
            s@ == mac_text(self.mac@),
    {
        mac_to_string(&self.mac)
    }

    /// Total LEDs on this device (flat-buffer override, or fans × per-fan + pump).
    pub fn total_leds(&self) -> (n: u16)
        ensures
            n == total_leds_of(self.kind, self.fan_count),
    {
        if let Some(n) = self.kind.led_count_override() {
            return n;
        }
        let pump = self.kind.pump_led_count();
        let lpf = self.kind.leds_per_fan();
        assert(pump <= 24 && lpf <= 44);
        assert(self.fan_count as int * lpf as int <= 255 * 44) by (nonlinear_arith)
            requires
                lpf <= 44,
        ;
        pump as u16 + self.fan_count as u16 * lpf as u16
    }
}

/// Whether 42+ bytes form a device record other than the master's own
/// (valid 0x1C marker at [41], device_type [18] not 0xFF).
pub open spec fn record_accepted(d: Seq<u8>) -> bool {
    d.len() >= 42 && d[41] == 0x1C && d[18] != 0xFF
}

/// Kind of the first nonzero fan-type byte (Unknown when all are zero).
pub open spec fn kind_of_fan_types(ft: Seq<u8>) -> DeviceKind {
    if ft[0] != 0 {
        kind_of_fan_type_byte(ft[0])
    } else if ft[1] != 0 {
        kind_of_fan_type_byte(ft[1])
    } else if ft[2] != 0 {
        kind_of_fan_type_byte(ft[2])
    } else if ft[3] != 0 {
        kind_of_fan_type_byte(ft[3])
    } else {
        DeviceKind::Unknown
    }
}

/// Device kind announced by a record: the device-type byte for AIOs,
/// Strimers and case devices, otherwise the fan-type bytes.
pub open spec fn kind_of_record(d: Seq<u8>) -> DeviceKind {
    let dt = d[18];
    if dt == 10 {
        DeviceKind::WaterBlock
    } else if dt == 11 {
        DeviceKind::WaterBlock2
    } else if 1 <= dt <= 9 {
        DeviceKind::Strimer(dt)
    } else if dt == 65 {
        DeviceKind::Lc217
    } else if dt == 66 {
        DeviceKind::V150
    } else if dt == 88 {
        DeviceKind::Led88
    } else {
        kind_of_fan_types(d.subrange(24, 28))
    }
}

/// `rec` is exactly the record the 42 bytes `d` describe, listed at `list_index`.
pub open spec fn record_matches(rec: DeviceRecord, d: Seq<u8>, list_index: u8) -> bool {
    &&& rec.mac@ == d.subrange(0, 6)
    &&& rec.master_mac@ == d.subrange(6, 12)
    &&& rec.channel == d[12]
    &&& rec.rx_type == d[13]
    &&& rec.device_type == d[18]
    &&& rec.fan_count == (if d[19] < 4 { d[19] } else { 4u8 })
    &&& rec.fan_types@ == d.subrange(24, 28)
    &&& rec.fan_rpms@ == seq![
        u16_from_be(d[28], d[29]),
        u16_from_be(d[30], d[31]),
        u16_from_be(d[32], d[33]),
        u16_from_be(d[34], d[35]),
    ]
    &&& rec.current_pwm@ == d.subrange(36, 40)
    &&& rec.cmd_seq == d[40]
    &&& rec.kind == kind_of_record(d)
    &&& rec.list_index == list_index
    &&& rec.coolant_temp_c == (if is_aio_kind(kind_of_record(d)) && d[27] > 0 {
        Some(d[27])
    } else {
        None
    })
    &&& rec.effect_index@ == d.subrange(20, 24)
}

fn copy6(d: &[u8], at: usize) -> (r: [u8; 6])
    requires
        at + 6 <= d@.len(),
    ensures
        r@ == d@.subrange(at as int, at + 6),
{
    let r = [d[at], d[at + 1], d[at + 2], d[at + 3], d[at + 4], d[at + 5]];
    assert(r@ =~= d@.subrange(at as int, at + 6));
    r
}

fn copy4(d: &[u8], at: usize) -> (r: [u8; 4])
    requires
        at + 4 <= d@.len(),
    ensures
        r@ == d@.subrange(at as int, at + 4),
{
    let r = [d[at], d[at + 1], d[at + 2], d[at + 3]];
    assert(r@ =~= d@.subrange(at as int, at + 4));
    r
}

fn be_u16(hi: u8, lo: u8) -> (r: u16)
    ensures
        r == u16_from_be(hi, lo),
{
    hi as u16 * 256 + lo as u16
}

/// Parse one 42-byte device record. Returns None for invalid records and for
/// the master's own record (device_type 0xFF).
pub fn parse_device_record(data: &[u8], list_index: u8) -> (r: Option<DeviceRecord>)
    ensures
        r is Some <==> record_accepted(data@),
        r matches Some(rec) ==> record_matches(rec, data@, list_index),
{
    if data.len() < 42 {
        return None;
    }
    if data[41] != 0x1C {
        return None;
    }
    let device_type = data[18];
    if device_type == 0xFF {
        return None;  // master's own record
    }
    let mac = copy6(data, 0);
    let master_mac = copy6(data, 6);
    let channel = data[12];
    let rx_type = data[13];
    let fan_count = if data[19] < 4 {
        data[19]
    } else {
        4
    };
    let fan_types = copy4(data, 24);
    let fan_rpms = [
        be_u16(data[28], data[29]),
        be_u16(data[30], data[31]),
        be_u16(data[32], data[33]),
        be_u16(data[34], data[35]),
    ];
    let current_pwm = copy4(data, 36);
    let cmd_seq = data[40];

    let kind = match device_type {
        10 => DeviceKind::WaterBlock,
        11 => DeviceKind::WaterBlock2,
        1..=9 => DeviceKind::Strimer(device_type),
        65 => DeviceKind::Lc217,
        66 => DeviceKind::V150,
        88 => DeviceKind::Led88,
        _ => {
            if fan_types[0] != 0 {
                DeviceKind::from_fan_type_byte(fan_types[0])
            } else if fan_types[1] != 0 {
                DeviceKind::from_fan_type_byte(fan_types[1])
            } else if fan_types[2] != 0 {
                DeviceKind::from_fan_type_byte(fan_types[2])
            } else if fan_types[3] != 0 {
                DeviceKind::from_fan_type_byte(fan_types[3])
            } else {
                DeviceKind::Unknown
            }
        },
    };

    let coolant_temp_c = if kind.is_aio() && data[27] > 0 {
        Some(data[27])
    } else {
        None
    };
    let effect_index = copy4(data, 20);
    let rec = DeviceRecord {
        mac,
        master_mac,
        channel,
        rx_type,
        device_type,
        fan_count,
        fan_types,
        fan_rpms,
        current_pwm,
        cmd_seq,
        kind,
        list_index,
        coolant_temp_c,
        effect_index,
    };
    assert(rec.fan_rpms@ =~= seq![
        u16_from_be(data@[28], data@[29]),
        u16_from_be(data@[30], data@[31]),
        u16_from_be(data@[32], data@[33]),
        u16_from_be(data@[34], data@[35]),
    ]);
    Some(rec)
}

/// Parsed GetDev response.
#[derive(Debug)]
pub struct GetDevReport {
    /// Motherboard PWM duty (0-255) as measured by the master, if available.
    pub mobo_pwm: Option<u8>,
    pub devices: Vec<DeviceRecord>,
}

/// Motherboard PWM reported in GetDev bytes [2] (off time, high bit =
/// unavailable) and [3] (on time): 255 × on / (off + on), None when
/// unavailable or when both times are zero.
pub open spec fn mobo_pwm_of(indicator: u8, on_time: u8) -> Option<u8> {
    if indicator >= 128 {
        None
    } else if indicator as int + on_time as int == 0 {
        None
    } else {
        Some((255 * on_time as int / (indicator as int + on_time as int)) as u8)
    }
}

/// Number of 42-byte records of a GetDev response that the parser looks at:
/// the announced count (ignored when over 12), cut at the first record that
/// does not fit in the response.
pub open spec fn getdev_record_slots(r: Seq<u8>) -> int {
    let count = r[1] as int;
    let fitting = (r.len() - 4) / 42;
    if count > 12 {
        0
    } else if count <= fitting {
        count
    } else {
        fitting
    }
}

/// Bytes of record slot `i` of a GetDev response.
pub open spec fn getdev_slot(r: Seq<u8>, i: int) -> Seq<u8> {
    r.subrange(4 + 42 * i, 4 + 42 * i + 42)
}

/// `devs` are exactly the accepted records among the first `n` slots of `r`,
/// in slot order, each listed with its slot index.
pub open spec fn getdev_devices(devs: Seq<DeviceRecord>, r: Seq<u8>, n: int) -> bool
    decreases n,
{
    if n <= 0 {
        devs.len() == 0
    } else if record_accepted(getdev_slot(r, n - 1)) {
        &&& devs.len() > 0
        &&& record_matches(devs.last(), getdev_slot(r, n - 1), (n - 1) as u8)
        &&& getdev_devices(devs.drop_last(), r, n - 1)
    } else {
        getdev_devices(devs, r, n - 1)
    }
}

/// The devices listed for the first `n` slots are at most `n`.
pub proof fn lemma_getdev_devices_len(devs: Seq<DeviceRecord>, r: Seq<u8>, n: int)
    requires
        getdev_devices(devs, r, n),
    ensures
        devs.len() <= if n <= 0 {
            0
        } else {
            n
        },
    decreases n,
{
    if n > 0 {
        if record_accepted(getdev_slot(r, n - 1)) {
            lemma_getdev_devices_len(devs.drop_last(), r, n - 1);
        } else {
            lemma_getdev_devices_len(devs, r, n - 1);
        }
    }
}

/// Law: the shape of a GetDev device list. Only whole 42-byte slots that
/// fit in the answer are read, at most the announced count of them; an
/// announced count over 12 lists no device; and no more devices are listed
/// than slots read.
pub proof fn lemma_getdev_devices_shape(devs: Seq<DeviceRecord>, r: Seq<u8>)
    requires
        r.len() >= 4,
        getdev_devices(devs, r, getdev_record_slots(r)),
    ensures
        0 <= getdev_record_slots(r) <= r[1],
        4 + 42 * getdev_record_slots(r) <= r.len(),
        r[1] > 12 ==> devs.len() == 0,
        devs.len() <= getdev_record_slots(r),
{
    lemma_getdev_devices_len(devs, r, getdev_record_slots(r));
    assert(42 * ((r.len() - 4) / 42) <= r.len() - 4) by (nonlinear_arith)
        requires
            r.len() >= 4,
    ;
}

/// Whether a response buffer of which `len` bytes were read is a GetDev echo.
pub open spec fn getdev_accepted(response: Seq<u8>, len: int) -> bool {
    len <= response.len() && len >= 4 && response[0] == USB_CMD_SEND_RF
}

/// Parse a full GetDev USB response buffer (`len` = bytes actually read).
///
/// Response layout: [0]=0x10 echo, [1]=device_count,
/// [2]=mobo PWM off_time (high bit = unavailable), [3]=mobo PWM on_time,
/// [4..]=42-byte records × device_count.
///
/// Returns None if the response is not a GetDev echo (or `len` exceeds the buffer).
pub fn parse_getdev_response(response: &[u8], len: usize) -> (out: Option<GetDevReport>)
    ensures
        out is Some <==> getdev_accepted(response@, len as int),
        out matches Some(rep) ==> {
            let r = response@.subrange(0, len as int);
            &&& rep.mobo_pwm == mobo_pwm_of(r[2], r[3])
            &&& getdev_devices(rep.devices@, r, getdev_record_slots(r))
        },
{
    if len > response.len() {
        return None;
    }
    let resp = &response[0..len];
    if resp.len() < 4 || resp[0] != USB_CMD_SEND_RF {
        return None;
    }
    let ghost r = resp@;

    let mut mobo_pwm: Option<u8> = None;
    let indicator = resp[2];
    if indicator < 128 {
        let off_time = indicator as u16;
        let on_time = resp[3] as u16;
        let denominator = off_time + on_time;
        if denominator > 0 {
            assert(255 * (on_time as int) / (denominator as int) <= 255) by (nonlinear_arith)
                requires
                    on_time <= denominator,
                    denominator > 0,
            ;
            mobo_pwm = Some((255u16 * on_time / denominator) as u8);
        }
    }
    assert(mobo_pwm == mobo_pwm_of(r[2], r[3]));
    let mut devices: Vec<DeviceRecord> = Vec::new();

    let device_count = resp[1] as usize;
    if device_count > 12 {
        return Some(GetDevReport { mobo_pwm, devices });
    }
    let mut offset: usize = 4;
    let mut idx: usize = 0;
    while idx < device_count
        invariant
            r == resp@,
            r == response@.subrange(0, len as int),
            r.len() == len,
            len >= 4,
            len <= response@.len(),
            r[0] == USB_CMD_SEND_RF,
            mobo_pwm == mobo_pwm_of(r[2], r[3]),
            device_count == r[1] as int,
            device_count <= 12,
            idx <= device_count,
            offset == 4 + 42 * idx,
            getdev_devices(devices@, r, idx as int),
            4 + 42 * idx <= len,
        decreases device_count - idx,
    {
        if offset + 42 > len {
            proof {
                assert((r.len() - 4) / 42 == idx) by (nonlinear_arith)
                    requires
                        r.len() < 4 + 42 * idx + 42,
                        4 + 42 * idx <= r.len(),
                ;
            }
            return Some(GetDevReport { mobo_pwm, devices });
        }
        let chunk = &resp[offset..offset + 42];
        assert(chunk@ == getdev_slot(r, idx as int));
        let ghost prev = devices@;
        match parse_device_record(chunk, idx as u8) {
            Some(rec) => {
                devices.push(rec);
                proof {
                    assert(devices@.drop_last() =~= prev);
                }
            },
            None => {},
        }
        offset += 42;
        idx += 1;
    }
    proof {
        assert(device_count <= (r.len() - 4) / 42) by (nonlinear_arith)
            requires
                4 + 42 * device_count <= r.len(),
        ;
    }
    Some(GetDevReport { mobo_pwm, devices })
}

} // verus!
