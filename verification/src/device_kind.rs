//! Classification of wireless device kinds from the GetDev record bytes.
//! Determines LED geometry, minimum PWM duty, and display names.

use vstd::prelude::*;

verus! {

/// Wireless device kind.
///
/// Classification inputs (from the 42-byte device record):
/// - `device_type` byte [18]: 10/11 = AIOs, 1-9 = Strimer, 65/66/88 = case devices
/// - otherwise the per-slot fan-type bytes [24..28]:
///   SLV3 LED 20-23, SLV3 LCD 24-26, TLV2 LCD 27|32-35, TLV2 LED 28-31,
///   SL-INF 36-39, RL120 40, CLV1 41-42
#[derive(Debug, Clone, Copy, PartialEq, Eq, Structural)]
pub enum DeviceKind {
    /// SLV3 LED fans (no LCD) — 14% minimum duty, 40 LEDs/fan
    Slv3Led,
    /// SLV3 LCD fans — 14% minimum duty, 40 LEDs/fan
    Slv3Lcd,
    /// TLV2 LCD fans — 10% minimum duty, 26 LEDs/fan
    Tlv2Lcd,
    /// TLV2 LED fans — 11% minimum duty, 26 LEDs/fan
    Tlv2Led,
    /// SL-INF wireless fans — 11% minimum duty, 44 LEDs/fan
    SlInf,
    /// CL / RL120 fans — 10% minimum duty, 24 LEDs/fan (special PWM filter)
    Clv1,
    /// HydroShift II LCD-C (Circle) wireless AIO (device_type 10)
    WaterBlock,
    /// HydroShift II LCD-S / H2S (Square) wireless AIO (device_type 11)
    WaterBlock2,
    /// Strimer Wireless LED strip (device_type 1-9) — RGB only, no fans
    Strimer(u8),
    /// Lancool 217 case RGB ring (device_type 65) — 96 LEDs
    Lc217,
    /// Universal Screen 8.8" LED ring (device_type 88) — 88 LEDs
    Led88,
    /// Lancool V150 controller (device_type 66) — 88 LEDs dual-zone
    V150,
    /// Unknown device kind
    Unknown,
}

/// Minimum PWM duty percentage of each kind.
pub open spec fn min_duty_of(k: DeviceKind) -> u8 {
    match k {
        DeviceKind::Slv3Led | DeviceKind::Slv3Lcd => 14,
        DeviceKind::Tlv2Lcd => 10,
        DeviceKind::Tlv2Led | DeviceKind::SlInf => 11,
        DeviceKind::Clv1 | DeviceKind::WaterBlock | DeviceKind::WaterBlock2 | DeviceKind::V150 => 10,
        DeviceKind::Strimer(_) | DeviceKind::Lc217 | DeviceKind::Led88 => 0,
        DeviceKind::Unknown => 10,
    }
}

/// Human-readable product name of each kind.
pub open spec fn display_name_of(k: DeviceKind) -> Seq<char> {
    match k {
        DeviceKind::Slv3Led => "UNI FAN SL V3 Wireless"@,
        DeviceKind::Slv3Lcd => "UNI FAN SL V3 Wireless LCD"@,
        DeviceKind::Tlv2Lcd => "UNI FAN TL Wireless LCD"@,
        DeviceKind::Tlv2Led => "UNI FAN TL Wireless"@,
        DeviceKind::SlInf => "UNI FAN SL-INF Wireless"@,
        DeviceKind::Clv1 => "UNI FAN CL Wireless"@,
        DeviceKind::WaterBlock => "HydroShift II LCD-C (Wireless)"@,
        DeviceKind::WaterBlock2 => "HydroShift II LCD-S (Wireless)"@,
        DeviceKind::Strimer(_) => "Strimer Wireless"@,
        DeviceKind::Lc217 => "Lancool 217 Wireless"@,
        DeviceKind::Led88 => "Universal Screen 8.8\" Wireless"@,
        DeviceKind::V150 => "Lancool V150 Wireless"@,
        DeviceKind::Unknown => "Wireless Device"@,
    }
}

/// LEDs on one fan of each kind (0 for flat-buffer devices).
pub open spec fn leds_per_fan_of(k: DeviceKind) -> u8 {
    match k {
        DeviceKind::Tlv2Lcd | DeviceKind::Tlv2Led => 26,
        DeviceKind::Slv3Led | DeviceKind::Slv3Lcd => 40,
        DeviceKind::SlInf => 44,
        DeviceKind::Clv1 | DeviceKind::WaterBlock | DeviceKind::WaterBlock2 => 24,
        DeviceKind::Strimer(_) | DeviceKind::Lc217 | DeviceKind::Led88 | DeviceKind::V150 => 0,
        DeviceKind::Unknown => 20,
    }
}

/// Whether the kind is an all-in-one liquid cooler (pump + fans).
pub open spec fn is_aio_kind(k: DeviceKind) -> bool {
    k is WaterBlock || k is WaterBlock2
}

/// Whether the kind has LEDs but no fans.
pub open spec fn is_rgb_only_kind(k: DeviceKind) -> bool {
    k is Strimer || k is Lc217 || k is Led88
}

/// LEDs on the pump head of an AIO.
pub open spec fn pump_led_count_of(k: DeviceKind) -> u8 {
    if is_aio_kind(k) { 24 } else { 0 }
}

/// Total LED count of flat-buffer (non per-fan) devices.
pub open spec fn led_count_override_of(k: DeviceKind) -> Option<u16> {
    match k {
        DeviceKind::Strimer(dt) => Some(
            if dt == 1 { 116u16 } else if dt == 2 { 132u16 } else if dt == 3 { 174u16 } else { 88u16 },
        ),
        DeviceKind::Lc217 => Some(96u16),
        DeviceKind::Led88 => Some(88u16),
        DeviceKind::V150 => Some(88u16),
        _ => None,
    }
}

/// Kind announced by a per-slot fan-type byte.
pub open spec fn kind_of_fan_type_byte(b: u8) -> DeviceKind {
    if 20 <= b <= 23 {
        DeviceKind::Slv3Led
    } else if 24 <= b <= 26 {
        DeviceKind::Slv3Lcd
    } else if b == 27 || (32 <= b <= 35) {
        DeviceKind::Tlv2Lcd
    } else if 28 <= b <= 31 {
        DeviceKind::Tlv2Led
    } else if 36 <= b <= 39 {
        DeviceKind::SlInf
    } else if 40 <= b <= 42 {
        DeviceKind::Clv1
    } else {
        DeviceKind::Unknown
    }
}

impl DeviceKind {
    /// Minimum PWM duty percentage the hardware accepts for a nonzero speed.
    pub fn min_duty_percent(self) -> (r: u8)
        ensures
            r == min_duty_of(self),
    {
        match self {
            DeviceKind::Slv3Led | DeviceKind::Slv3Lcd => 14,
            DeviceKind::Tlv2Lcd => 10,
            DeviceKind::Tlv2Led | DeviceKind::SlInf => 11,
            DeviceKind::Clv1 | DeviceKind::WaterBlock | DeviceKind::WaterBlock2 | DeviceKind::V150 => 10,
            DeviceKind::Strimer(_) | DeviceKind::Lc217 | DeviceKind::Led88 => 0,
            DeviceKind::Unknown => 10,
        }
    }

    /// Product name shown to users.
    pub fn display_name(self) -> (r: &'static str)
        ensures
            r@ == display_name_of(self),
    {
        match self {
            DeviceKind::Slv3Led => "UNI FAN SL V3 Wireless",
            DeviceKind::Slv3Lcd => "UNI FAN SL V3 Wireless LCD",
            DeviceKind::Tlv2Lcd => "UNI FAN TL Wireless LCD",
            DeviceKind::Tlv2Led => "UNI FAN TL Wireless",
            DeviceKind::SlInf => "UNI FAN SL-INF Wireless",
            DeviceKind::Clv1 => "UNI FAN CL Wireless",
            DeviceKind::WaterBlock => "HydroShift II LCD-C (Wireless)",
            DeviceKind::WaterBlock2 => "HydroShift II LCD-S (Wireless)",
            DeviceKind::Strimer(_) => "Strimer Wireless",
            DeviceKind::Lc217 => "Lancool 217 Wireless",
            DeviceKind::Led88 => "Universal Screen 8.8\" Wireless",
            DeviceKind::V150 => "Lancool V150 Wireless",
            DeviceKind::Unknown => "Wireless Device",
        }
    }

    /// LEDs on one fan.
    pub fn leds_per_fan(self) -> (r: u8)
        ensures
            r == leds_per_fan_of(self),
    {
        match self {
            DeviceKind::Tlv2Lcd | DeviceKind::Tlv2Led => 26,
            DeviceKind::Slv3Led | DeviceKind::Slv3Lcd => 40,
            DeviceKind::SlInf => 44,
            DeviceKind::Clv1 | DeviceKind::WaterBlock | DeviceKind::WaterBlock2 => 24,
            DeviceKind::Strimer(_) | DeviceKind::Lc217 | DeviceKind::Led88 | DeviceKind::V150 => 0,
            DeviceKind::Unknown => 20,
        }
    }

    pub fn is_aio(self) -> (r: bool)
        ensures
            r == is_aio_kind(self),
    {
        matches!(self, DeviceKind::WaterBlock | DeviceKind::WaterBlock2)
    }

    pub fn is_rgb_only(self) -> (r: bool)
        ensures
            r == is_rgb_only_kind(self),
    {
        matches!(self, DeviceKind::Strimer(_) | DeviceKind::Lc217 | DeviceKind::Led88)
    }

    pub fn pump_led_count(self) -> (r: u8)
        ensures
            r == pump_led_count_of(self),
    {
        if self.is_aio() {
            24
        } else {
            0
        }
    }

    /// Total LED count for flat-buffer (non per-fan) devices.
    pub fn led_count_override(self) -> (r: Option<u16>)
        ensures
            r == led_count_override_of(self),
    {
        match self {
            DeviceKind::Strimer(dt) => Some(
                match dt {
                    1 => 116,
                    2 => 132,
                    3 => 174,
                    _ => 88,
                },
            ),
            DeviceKind::Lc217 => Some(96),
            DeviceKind::Led88 => Some(88),
            DeviceKind::V150 => Some(88),
            _ => None,
        }
    }

    /// Classify from a per-slot fan-type byte in the device record.
    pub fn from_fan_type_byte(b: u8) -> (r: DeviceKind)
        ensures
            r == kind_of_fan_type_byte(b),
            20 <= b <= 23 ==> r == DeviceKind::Slv3Led,
            24 <= b <= 26 ==> r == DeviceKind::Slv3Lcd,
            b == 27 || 32 <= b <= 35 ==> r == DeviceKind::Tlv2Lcd,
            28 <= b <= 31 ==> r == DeviceKind::Tlv2Led,
            36 <= b <= 39 ==> r == DeviceKind::SlInf,
            40 <= b <= 42 ==> r == DeviceKind::Clv1,
            b < 20 || b > 42 ==> r == DeviceKind::Unknown,
    {
        match b {
            20..=23 => DeviceKind::Slv3Led,
            24..=26 => DeviceKind::Slv3Lcd,
            27 | 32..=35 => DeviceKind::Tlv2Lcd,
            28..=31 => DeviceKind::Tlv2Led,
            36..=39 => DeviceKind::SlInf,
            40..=42 => DeviceKind::Clv1,
            _ => DeviceKind::Unknown,
        }
    }
}

/// Law: the fan-type byte of a record names the fan model by its documented
/// ranges — 20-23 SL V3 LED, 24-26 SL V3 LCD, 27 and 32-35 TL V2 LCD, 28-31
/// TL V2 LED, 36-39 SL-INF, 40-42 CL / RL120 — and any other byte is an
/// unknown kind.
pub proof fn lemma_fan_type_byte_ranges(b: u8)
    ensures
        20 <= b <= 23 <==> kind_of_fan_type_byte(b) == DeviceKind::Slv3Led,
        24 <= b <= 26 <==> kind_of_fan_type_byte(b) == DeviceKind::Slv3Lcd,
        (b == 27 || 32 <= b <= 35) <==> kind_of_fan_type_byte(b) == DeviceKind::Tlv2Lcd,
        28 <= b <= 31 <==> kind_of_fan_type_byte(b) == DeviceKind::Tlv2Led,
        36 <= b <= 39 <==> kind_of_fan_type_byte(b) == DeviceKind::SlInf,
        40 <= b <= 42 <==> kind_of_fan_type_byte(b) == DeviceKind::Clv1,
        (b < 20 || b > 42) <==> kind_of_fan_type_byte(b) == DeviceKind::Unknown,
{
}

} // verus!
