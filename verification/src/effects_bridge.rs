//! Bridge between device records and the effect catalog: animation frame
//! budget, device geometry, and the record check on rendered frames.

use vstd::prelude::*;
use crate::device_kind::{
    is_aio_kind, led_count_override_of, leds_per_fan_of, DeviceKind,
};
use crate::effects::{geometry_len, FanLayout, Geometry};
use crate::record::{total_leds_of, DeviceRecord};

verus! {

/// Raw-byte budget for animation storage: about 75% of the measured
/// firmware floor (96 frames × 132 LEDs × 3 bytes passes, 112 fails).
pub const RAW_BYTE_BUDGET: u32 = 28_000;

/// clamp(RAW_BYTE_BUDGET / (total_leds × 3), 8, 96); 8 for no LEDs.
pub open spec fn frame_budget_of(total_leds: u16) -> u16 {
    if total_leds == 0 {
        8
    } else {
        let raw = RAW_BYTE_BUDGET as int / (total_leds as int * 3);
        if raw < 8 {
            8
        } else if raw > 96 {
            96
        } else {
            raw as u16
        }
    }
}

/// Compute the frame budget for a device with `total_leds` LEDs:
/// `clamp(28_000 / (total_leds × 3), 8, 96)`.
pub fn frame_budget(total_leds: u16) -> (n: u16)
    ensures
        n == frame_budget_of(total_leds),
        8 <= n <= 96,
{
    if total_leds == 0 {
        return 8;
    }
    let raw = RAW_BYTE_BUDGET / (total_leds as u32 * 3);
    if raw < 8 {
        8
    } else if raw > 96 {
        96
    } else {
        raw as u16
    }
}

/// The effect geometry of a device kind with `fan_count` fans.
pub open spec fn geometry_of_kind(kind: DeviceKind, fan_count: u8) -> Option<Geometry> {
    if is_aio_kind(kind) || kind is Unknown {
        None
    } else if led_count_override_of(kind) is Some {
        Some(Geometry::Strip { total: led_count_override_of(kind).unwrap() })
    } else if leds_per_fan_of(kind) == 0 || fan_count == 0 {
        None
    } else {
        Some(
            Geometry::Fans {
                fan_count,
                leds_per_fan: leds_per_fan_of(kind),
                layout: if kind is SlInf {
                    FanLayout::SlInf44
                } else {
                    FanLayout::UniformRing
                },
            },
        )
    }
}

/// Map a device kind + fan_count to an effect Geometry, if supported.
///
/// - Fan devices → `Geometry::Fans` (leds_per_fan from kind; the measured
///   SL-INF wiring for SL-INF, a uniform ring otherwise).
/// - Flat-buffer devices (`led_count_override` is Some) → `Geometry::Strip`.
/// - AIO (pump + fan composite) → `None`; static color still works for AIOs.
/// - An unknown kind, or a fan device with zero LEDs per fan or zero fans
///   → `None`.
pub fn geometry_of(kind: DeviceKind, fan_count: u8) -> (g: Option<Geometry>)
    ensures
        g == geometry_of_kind(kind, fan_count),
{
    if kind.is_aio() {
        return None;
    }
    if let DeviceKind::Unknown = kind {
        return None;
    }
    if let Some(total) = kind.led_count_override() {
        return Some(Geometry::Strip { total });
    }
    let lpf = kind.leds_per_fan();
    if lpf == 0 || fan_count == 0 {
        return None;
    }
    let layout = match kind {
        DeviceKind::SlInf => FanLayout::SlInf44,
        _ => FanLayout::UniformRing,
    };
    Some(Geometry::Fans { fan_count, leds_per_fan: lpf, layout })
}

/// Law: the effect geometry of a device and its record's LED count agree —
/// a frame rendered for `geometry_of(kind, fan_count)` has exactly the
/// record's `total_leds()` pixels, so `compile` keeps it.
pub proof fn lemma_geometry_matches_total_leds(kind: DeviceKind, fan_count: u8)
    requires
        geometry_of_kind(kind, fan_count) is Some,
    ensures
        geometry_len(geometry_of_kind(kind, fan_count).unwrap()) == total_leds_of(kind, fan_count),
{
    assert(fan_count as int * leds_per_fan_of(kind) as int <= 255 * 44) by (nonlinear_arith)
        requires
            leds_per_fan_of(kind) <= 44,
    ;
}

/// Whether every frame has exactly `n` pixels.
pub open spec fn frames_sized(frames: Seq<Vec<[u8; 3]>>, n: int) -> bool {
    forall|i: int| 0 <= i < frames.len() ==> #[trigger] frames[i]@.len() == n
}

/// Check a rendered animation against the record it is meant for: the
/// frames and interval unchanged when every frame has exactly the record's
/// `total_leds()` pixels, else `None` (a geometry/record mismatch — better
/// to skip the upload than send garbage to the firmware).
pub fn compile(
    rec: &DeviceRecord,
    frames: Vec<Vec<[u8; 3]>>,
    interval_ms: u16,
) -> (r: Option<(Vec<Vec<[u8; 3]>>, u16)>)
    ensures
        frames_sized(frames@, total_leds_of(rec.kind, rec.fan_count) as int) ==> r == Some(
            (frames, interval_ms),
        ),
        !frames_sized(frames@, total_leds_of(rec.kind, rec.fan_count) as int) ==> r is None,
{
    let expected = rec.total_leds() as usize;
    let mut i: usize = 0;
    while i < frames.len()
        invariant
            i <= frames@.len(),
            expected == total_leds_of(rec.kind, rec.fan_count),
            forall|k: int| 0 <= k < i ==> #[trigger] frames@[k]@.len() == expected,
        decreases frames@.len() - i,
    {
        if frames[i].len() != expected {
            return None;
        }
        i += 1;
    }
    Some((frames, interval_ms))
}

} // verus!
