//! Daemon configuration records (schema v1) and their validation rules.
//! (Temperature curves carry floating-point points and stay with the
//! renderer-side configuration; here are the integer parts.)

use vstd::prelude::*;
use crate::effects::EffectSpec;
use crate::hex::{MacError, chars_of, mac_error, parse_mac_chars, parsed_mac};

verus! {

/// Config schema version this daemon reads and writes.
pub const SCHEMA_VERSION: u32 = 1;

/// Native hwmon addressing: /sys/class/hwmon/hwmon*/name == `hwmon_name`,
/// reading `input` (e.g. "temp1_input", millidegrees).
#[derive(Debug, Clone)]
pub struct SensorSpec {
    pub hwmon_name: String,
    pub input: String,
}

/// One fan slot's speed source: a number is a constant speed %, a string
/// names a curve. 0 = off.
#[derive(Debug, Clone, PartialEq)]
pub enum SlotSpeed {
    Percent(u8),
    Curve(String),
}

impl Default for SlotSpeed {
    fn default() -> (s: SlotSpeed)
        ensures
            s == SlotSpeed::Percent(0),
    {
        SlotSpeed::Percent(0)
    }
}

/// A static color, with the L-Connect-compatible brightness scale 0..=4
/// (4 = full).
#[derive(Debug, Clone, Copy, PartialEq, Eq)]
pub struct StaticColor {
    pub rgb: [u8; 3],
    pub brightness: u8,
}

/// One configured device.
#[derive(Debug, Clone)]
pub struct DeviceConfig {
    /// Device MAC as "aa:bb:cc:dd:ee:ff".
    pub mac: String,
    pub name: Option<String>,
    /// One entry per fan slot. RGB-only devices set all four slots to 0.
    pub slots: [SlotSpeed; 4],
    /// Static color asserted (and drift-restored) by the daemon. None = leave alone.
    /// If both `effect` and `color` are present, `effect` takes precedence.
    pub color: Option<StaticColor>,
    /// Animated effect spec. When present, overrides `color`. Speed must be
    /// 1..=5 (0 is invalid), brightness ≤4, palette ≤8 entries.
    pub effect: Option<EffectSpec>,
}

/// A named effect the UI offers as a one-click starting point.
/// Storage only: the daemon round-trips presets but never applies them.
#[derive(Debug, Clone, PartialEq)]
pub struct Preset {
    pub name: String,
    pub effect: EffectSpec,
}

/// Tiered-recovery thresholds — tuning parameters, not constants.
#[derive(Debug, Clone, Copy, PartialEq, Eq, Structural)]
pub struct ReliabilityConfig {
    pub grace_s: u64,
    pub dropout_threshold: u32,
    pub window_s: u64,
    pub tier1_cooldown_s: u64,
    pub tier2_cooldown_s: u64,
    pub tier2_after_failed_tier1: u32,
}

impl Default for ReliabilityConfig {
    fn default() -> (c: ReliabilityConfig)
        ensures
            c == (ReliabilityConfig {
                grace_s: 120,
                dropout_threshold: 5,
                window_s: 60,
                tier1_cooldown_s: 60,
                tier2_cooldown_s: 300,
                tier2_after_failed_tier1: 2,
            }),
    {
        ReliabilityConfig {
            grace_s: 120,
            dropout_threshold: 5,
            window_s: 60,
            tier1_cooldown_s: 60,
            tier2_cooldown_s: 300,
            tier2_after_failed_tier1: 2,
        }
    }
}

/// How raw GetDev readbacks become dropout observations: single-poll blips
/// are normal on a healthy channel; only persistent readback loss counts.
#[derive(Debug, Clone, Copy, PartialEq, Eq, Structural)]
pub struct ObservationConfig {
    /// A dropout observation is reported for every poll at or beyond this
    /// many CONSECUTIVE all-zero-readback polls while PWM is commanded.
    pub consecutive_polls: u32,
    /// GetDev poll interval in ms.
    pub poll_ms: u64,
}

/// Consecutive all-zero polls that make a dropout, when the config omits it.
pub fn default_consecutive_polls() -> (r: u32)
    ensures
        r == 2,
{
    2
}

/// GetDev poll interval when the config omits it.
pub fn default_poll_ms() -> (r: u64)
    ensures
        r == 500,
{
    500
}

/// Fan % commanded when a curve's sensor is unreadable, when the config omits it.
pub fn default_sensor_failsafe() -> (r: u8)
    ensures
        r == 50,
{
    50
}

impl Default for ObservationConfig {
    fn default() -> (c: ObservationConfig)
        ensures
            c == (ObservationConfig { consecutive_polls: 2, poll_ms: 500 }),
    {
        ObservationConfig { consecutive_polls: 2, poll_ms: 500 }
    }
}

/// Why an effect spec was refused.
#[derive(Debug, Clone, Copy, PartialEq, Eq, Structural)]
pub enum EffectError {
    /// Speed outside 1..=5.
    Speed(u8),
    /// Brightness above 4.
    Brightness(u8),
    /// More than 8 palette entries (count given).
    Palette(usize),
}

/// Whether an effect spec obeys the daemon's rules.
pub open spec fn effect_valid(spec: EffectSpec) -> bool {
    1 <= spec.speed <= 5 && spec.brightness <= 4 && spec.colors@.len() <= 8
}

/// The first rule an effect spec breaks: speed, then brightness, then
/// palette size.
pub open spec fn effect_error(spec: EffectSpec) -> Option<EffectError> {
    if !(1 <= spec.speed <= 5) {
        Some(EffectError::Speed(spec.speed))
    } else if spec.brightness > 4 {
        Some(EffectError::Brightness(spec.brightness))
    } else if spec.colors@.len() > 8 {
        Some(EffectError::Palette(spec.colors@.len() as usize))
    } else {
        None
    }
}

/// Validate an [`EffectSpec`] in isolation (speed, brightness, palette size).
/// Used for config-load and for the IPC `SetEffect` handler so the rules
/// can never drift between the two. Errors are reported in that order.
pub fn validate_effect(spec: &EffectSpec) -> (r: Result<(), EffectError>)
    ensures
        r is Ok <==> effect_valid(*spec),
        r matches Err(e) ==> effect_error(*spec) == Some(e),
        r == Err::<(), EffectError>(EffectError::Speed(spec.speed)) <==> !(1 <= spec.speed <= 5),
        r == Err::<(), EffectError>(EffectError::Brightness(spec.brightness)) <==> (1 <= spec.speed
            <= 5 && spec.brightness > 4),
        r == Err::<(), EffectError>(EffectError::Palette(spec.colors@.len() as usize)) <==> (1
            <= spec.speed <= 5 && spec.brightness <= 4 && spec.colors@.len() > 8),
{
    if spec.speed == 0 || spec.speed > 5 {
        return Err(EffectError::Speed(spec.speed));
    }
    if spec.brightness > 4 {
        return Err(EffectError::Brightness(spec.brightness));
    }
    if spec.colors.len() > 8 {
        return Err(EffectError::Palette(spec.colors.len()));
    }
    Ok(())
}

/// Parse a MAC written "aa:bb:cc:dd:ee:ff": six ':'-separated parts, each
/// parsed as `u8::from_str_radix(part, 16)`.
pub fn parse_mac(s: &str) -> (r: Result<[u8; 6], MacError>)
    ensures
        r is Ok <==> parsed_mac(s@) is Some,
        r matches Ok(m) ==> parsed_mac(s@) == Some(m@),
        r matches Err(e) ==> e == mac_error(s@),
{
    let cs = chars_of(s);
    parse_mac_chars(&cs)
}

/// Why a configured-device edit was refused.
#[derive(Debug, Clone, Copy, PartialEq, Eq, Structural)]
pub enum DeviceEditError {
    /// Brightness above 4.
    Brightness(u8),
    /// No configured device has this MAC.
    UnknownDevice,
    /// The effect breaks a rule.
    Effect(EffectError),
}

/// The index of the first configured device at or after `i` whose MAC
/// string is `mac`.
pub open spec fn device_index_from(ds: Seq<DeviceConfig>, mac: Seq<char>, i: int) -> Option<int>
    decreases ds.len() - i,
{
    if i < 0 || i >= ds.len() {
        None
    } else if ds[i].mac@ == mac {
        Some(i)
    } else {
        device_index_from(ds, mac, i + 1)
    }
}

/// The index of the first configured device whose MAC string is `mac`.
pub open spec fn device_index(ds: Seq<DeviceConfig>, mac: Seq<char>) -> Option<int> {
    device_index_from(ds, mac, 0)
}

/// A found index is in range and names the device.
pub proof fn lemma_device_index_found(ds: Seq<DeviceConfig>, mac: Seq<char>, i: int)
    requires
        0 <= i,
    ensures
        device_index_from(ds, mac, i) matches Some(k) ==> i <= k < ds.len() && ds[k].mac@ == mac
            && forall|j: int| i <= j < k ==> #[trigger] ds[j].mac@ != mac,
        device_index_from(ds, mac, i) is None ==> forall|j: int|
            i <= j < ds.len() ==> #[trigger] ds[j].mac@ != mac,
    decreases ds.len() - i,
{
    if i < ds.len() && ds[i].mac@ != mac {
        lemma_device_index_found(ds, mac, i + 1);
    }
}

/// The position of the first configured device whose MAC string is `mac`.
pub fn find_device(ds: &Vec<DeviceConfig>, mac: &String) -> (r: Option<usize>)
    ensures
        match device_index(ds@, mac@) {
            Some(i) => r == Some(i as usize),
            None => r is None,
        },
        r matches Some(i) ==> i < ds@.len() && ds@[i as int].mac@ == mac@,
{
    let mut i: usize = 0;
    while i < ds.len()
        invariant
            i <= ds@.len(),
            device_index(ds@, mac@) == device_index_from(ds@, mac@, i as int),
        decreases ds@.len() - i,
    {
        if ds[i].mac == *mac {
            return Some(i);
        }
        i += 1;
    }
    None
}

/// Set the static color of the configured device `mac` (the first entry
/// with that MAC). Brightness must be 0..=4.
pub fn set_device_color(
    ds: &mut Vec<DeviceConfig>,
    mac: &String,
    rgb: [u8; 3],
    brightness: u8,
) -> (r: Result<(), DeviceEditError>)
    ensures
        brightness > 4 ==> r == Err::<(), DeviceEditError>(DeviceEditError::Brightness(brightness))
            && final(ds)@ == old(ds)@,
        brightness <= 4 && device_index(old(ds)@, mac@) is None ==> r == Err::<(), DeviceEditError>(
            DeviceEditError::UnknownDevice,
        ) && final(ds)@ == old(ds)@,
        brightness <= 4 ==> match device_index(old(ds)@, mac@) {
            Some(i) => r is Ok && final(ds)@ == old(ds)@.update(
                i,
                DeviceConfig { color: Some(StaticColor { rgb, brightness }), ..old(ds)@[i] },
            ),
            None => true,
        },
{
    if brightness > 4 {
        return Err(DeviceEditError::Brightness(brightness));
    }
    let i = match find_device(ds, mac) {
        Some(i) => i,
        None => return Err(DeviceEditError::UnknownDevice),
    };
    let ghost before = ds@;
    proof {
        lemma_device_index_found(before, mac@, 0);
    }
    let mut d = ds.remove(i);
    d.color = Some(StaticColor { rgb, brightness });
    ds.insert(i, d);
    assert(ds@ =~= before.update(
        i as int,
        DeviceConfig { color: Some(StaticColor { rgb, brightness }), ..before[i as int] },
    ));
    Ok(())
}

/// Set the effect of the configured device `mac` (the first entry with that
/// MAC) after checking it against the effect rules.
pub fn set_device_effect(
    ds: &mut Vec<DeviceConfig>,
    mac: &String,
    effect: EffectSpec,
) -> (r: Result<(), DeviceEditError>)
    ensures
        effect_error(effect) matches Some(e) ==> r == Err::<(), DeviceEditError>(
            DeviceEditError::Effect(e),
        ),
        !effect_valid(effect) ==> final(ds)@ == old(ds)@,
        effect_valid(effect) && device_index(old(ds)@, mac@) is None ==> r == Err::<
            (),
            DeviceEditError,
        >(DeviceEditError::UnknownDevice) && final(ds)@ == old(ds)@,
        effect_valid(effect) ==> match device_index(old(ds)@, mac@) {
            Some(i) => r is Ok && final(ds)@ == old(ds)@.update(
                i,
                DeviceConfig { effect: Some(effect), ..old(ds)@[i] },
            ),
            None => true,
        },
{
    if let Err(e) = validate_effect(&effect) {
        return Err(DeviceEditError::Effect(e));
    }
    let i = match find_device(ds, mac) {
        Some(i) => i,
        None => return Err(DeviceEditError::UnknownDevice),
    };
    let ghost before = ds@;
    proof {
        lemma_device_index_found(before, mac@, 0);
    }
    let ghost eff = effect;
    let mut d = ds.remove(i);
    d.effect = Some(effect);
    ds.insert(i, d);
    assert(ds@ =~= before.update(i as int, DeviceConfig { effect: Some(eff), ..before[i as int] }));
    Ok(())
}

/// Drop every configured device whose MAC string is `mac` (an unbind
/// completed), keeping the others in order.
pub fn remove_device(ds: &mut Vec<DeviceConfig>, mac: &String)
    ensures
        final(ds)@ == old(ds)@.filter(|d: DeviceConfig| d.mac@ != mac@),
{
    let ghost keep = |d: DeviceConfig| d.mac@ != mac@;
    let ghost orig = ds@;
    let n = ds.len();
    let mut src: Vec<DeviceConfig> = Vec::new();
    std::mem::swap(ds, &mut src);
    let mut k: usize = 0;
    while src.len() > 0
        invariant
            k <= orig.len(),
            orig.len() == n,
            src@.len() + k == orig.len(),
            src@ == orig.skip(k as int),
            ds@ == orig.take(k as int).filter(keep),
            keep == (|d: DeviceConfig| d.mac@ != mac@),
        decreases src@.len(),
    {
        let d = src.remove(0);
        proof {
            assert(orig.skip(k as int).remove(0) =~= orig.skip(k + 1));
            assert(orig.take(k + 1).drop_last() =~= orig.take(k as int));
            assert(orig.take(k + 1).last() == d);
            reveal(Seq::filter);
        }
        if d.mac != *mac {
            ds.push(d);
        }
        k += 1;
    }
    assert(orig.take(k as int) =~= orig);
}

/// The slot speed a newly bound device starts with: the first curve, or a
/// constant 40% without curves.
pub open spec fn default_slot(first_curve: Option<String>) -> SlotSpeed {
    match first_curve {
        Some(n) => SlotSpeed::Curve(n),
        None => SlotSpeed::Percent(40),
    }
}

/// After a bind: add a configured entry for `mac` with every slot on the
/// default speed, unless the device is still configured (a re-bind keeps
/// the user's slots and colors).
pub fn add_device_if_missing(ds: &mut Vec<DeviceConfig>, mac: String, first_curve: Option<String>)
    ensures
        device_index(old(ds)@, mac@) is Some ==> final(ds)@ == old(ds)@,
        device_index(old(ds)@, mac@) is None ==> final(ds)@ == old(ds)@.push(
            DeviceConfig {
                mac,
                name: None,
                slots: [
                    default_slot(first_curve),
                    default_slot(first_curve),
                    default_slot(first_curve),
                    default_slot(first_curve),
                ],
                color: None,
                effect: None,
            },
        ),
{
    if find_device(ds, &mac).is_some() {
        return;
    }
    let slots = match first_curve {
        Some(n) => [
            SlotSpeed::Curve(n.clone()),
            SlotSpeed::Curve(n.clone()),
            SlotSpeed::Curve(n.clone()),
            SlotSpeed::Curve(n),
        ],
        None => [
            SlotSpeed::Percent(40),
            SlotSpeed::Percent(40),
            SlotSpeed::Percent(40),
            SlotSpeed::Percent(40),
        ],
    };
    ds.push(DeviceConfig { mac, name: None, slots, color: None, effect: None });
}

/// Why a configuration was refused: the first offending device (by index)
/// and what is wrong with it.
#[derive(Debug, Clone, Copy, PartialEq, Eq, Structural)]
pub enum ConfigError {
    /// The device's MAC does not parse.
    Mac { device: usize, err: MacError },
    /// A slot names a curve that does not exist.
    UnknownCurve { device: usize, slot: usize },
    /// A slot's constant speed is above 100%.
    SlotPercent { device: usize, slot: usize, percent: u8 },
    /// The static color's brightness is above 4.
    Brightness { device: usize, brightness: u8 },
    /// The effect breaks a rule.
    Effect { device: usize, err: EffectError },
}

/// What is wrong with slot `k` of a device, given the curve names.
pub open spec fn slot_error(slot: SlotSpeed, names: Seq<Seq<char>>, device: usize, k: usize) -> Option<ConfigError> {
    match slot {
        SlotSpeed::Curve(n) => if exists|j: int| 0 <= j < names.len() && #[trigger] names[j] == n@ {
            None
        } else {
            Some(ConfigError::UnknownCurve { device, slot: k })
        },
        SlotSpeed::Percent(p) => if p > 100 {
            Some(ConfigError::SlotPercent { device, slot: k, percent: p })
        } else {
            None
        },
    }
}

/// The first slot error of a device among slots `k..4`.
pub open spec fn slots_error_from(d: DeviceConfig, names: Seq<Seq<char>>, device: usize, k: int) -> Option<ConfigError>
    decreases 4 - k,
{
    if k < 0 || k >= 4 {
        None
    } else if slot_error(d.slots[k], names, device, k as usize) is Some {
        slot_error(d.slots[k], names, device, k as usize)
    } else {
        slots_error_from(d, names, device, k + 1)
    }
}

/// What is wrong with device number `device`, checked in order: MAC, slots,
/// color brightness, effect.
pub open spec fn device_error(d: DeviceConfig, names: Seq<Seq<char>>, device: usize) -> Option<ConfigError> {
    if parsed_mac(d.mac@) is None {
        Some(ConfigError::Mac { device, err: mac_error(d.mac@) })
    } else if slots_error_from(d, names, device, 0) is Some {
        slots_error_from(d, names, device, 0)
    } else if d.color matches Some(c) && c.brightness > 4 {
        Some(ConfigError::Brightness { device, brightness: d.color.unwrap().brightness })
    } else if d.effect matches Some(e) && effect_error(e) is Some {
        Some(ConfigError::Effect { device, err: effect_error(d.effect.unwrap()).unwrap() })
    } else {
        None
    }
}

/// The first device error among devices `i..`.
pub open spec fn devices_error_from(ds: Seq<DeviceConfig>, names: Seq<Seq<char>>, i: int) -> Option<ConfigError>
    decreases ds.len() - i,
{
    if i < 0 || i >= ds.len() {
        None
    } else if device_error(ds[i], names, i as usize) is Some {
        device_error(ds[i], names, i as usize)
    } else {
        devices_error_from(ds, names, i + 1)
    }
}

/// The views of a list of names.
pub open spec fn names_view(v: Seq<String>) -> Seq<Seq<char>> {
    Seq::new(v.len(), |i: int| v[i]@)
}

/// Whether `name` is among the curve names.
fn has_name(names: &Vec<String>, name: &String) -> (b: bool)
    ensures
        b == exists|j: int| 0 <= j < names@.len() && #[trigger] names_view(names@)[j] == name@,
{
    let mut i: usize = 0;
    while i < names.len()
        invariant
            i <= names@.len(),
            forall|j: int| 0 <= j < i ==> #[trigger] names_view(names@)[j] != name@,
        decreases names@.len() - i,
    {
        if names[i] == *name {
            assert(names_view(names@)[i as int] == name@);
            return true;
        }
        i += 1;
    }
    false
}

/// Check one device against the rules.
fn check_device(d: &DeviceConfig, names: &Vec<String>, device: usize) -> (r: Result<(), ConfigError>)
    ensures
        match device_error(*d, names_view(names@), device) {
            Some(e) => r == Err::<(), ConfigError>(e),
            None => r is Ok,
        },
{
    let ghost nv = names_view(names@);
    if let Err(e) = parse_mac(d.mac.as_str()) {
        return Err(ConfigError::Mac { device, err: e });
    }
    let mut k: usize = 0;
    while k < 4
        invariant
            k <= 4,
            nv == names_view(names@),
            parsed_mac(d.mac@) is Some,
            slots_error_from(*d, nv, device, 0) == slots_error_from(*d, nv, device, k as int),
        decreases 4 - k,
    {
        match &d.slots[k] {
            SlotSpeed::Curve(n) => {
                if !has_name(names, n) {
                    return Err(ConfigError::UnknownCurve { device, slot: k });
                }
            },
            SlotSpeed::Percent(p) => {
                if *p > 100 {
                    return Err(ConfigError::SlotPercent { device, slot: k, percent: *p });
                }
            },
        }
        k += 1;
    }
    if let Some(c) = &d.color {
        if c.brightness > 4 {
            return Err(ConfigError::Brightness { device, brightness: c.brightness });
        }
    }
    if let Some(e) = &d.effect {
        if let Err(err) = validate_effect(e) {
            return Err(ConfigError::Effect { device, err });
        }
    }
    Ok(())
}

/// Referential integrity of the configured devices: every MAC parses, every
/// named curve exists, slot percents are at most 100, brightness at most 4,
/// effects obey the effect rules. The first offending device, in order,
/// is reported.
pub fn validate_devices(devices: &Vec<DeviceConfig>, curve_names: &Vec<String>) -> (r: Result<(), ConfigError>)
    ensures
        match devices_error_from(devices@, names_view(curve_names@), 0) {
            Some(e) => r == Err::<(), ConfigError>(e),
            None => r is Ok,
        },
{
    let ghost nv = names_view(curve_names@);
    let mut i: usize = 0;
    while i < devices.len()
        invariant
            i <= devices@.len(),
            nv == names_view(curve_names@),
            devices_error_from(devices@, nv, 0) == devices_error_from(devices@, nv, i as int),
        decreases devices@.len() - i,
    {
        check_device(&devices[i], curve_names, i)?;
        i += 1;
    }
    Ok(())
}

} // verus!
