//! The RGB effect catalog and its integer parameters: effect kinds,
//! direction, speed → period, animation frame schedule, and device geometry.
//! (The per-pixel color math is floating point and lives with the renderer.)

use vstd::prelude::*;

verus! {

/// The eight named effects in the v1 catalog.
#[derive(Debug, Clone, Copy, PartialEq, Eq, Structural)]
pub enum EffectKind {
    /// Every LED shows a fixed colour (default white).
    Static,
    /// Whole device breathes — brightness follows sin²(πt).
    Breathing,
    /// Smooth palette fade across the whole device over one period.
    ColorCycle,
    /// Whole device cycles through the hue wheel together.
    RainbowMorph,
    /// Moving rainbow tied to ring/strip position.
    Rainbow,
    /// A bright head trails an exponential fade across the chain.
    Meteor,
    /// Marching on/off segments.
    Runway,
    /// A pulse expands from the origin outward.
    Ripple,
}

/// The catalog in definition order.
pub open spec fn all_kinds() -> Seq<EffectKind> {
    seq![
        EffectKind::Static,
        EffectKind::Breathing,
        EffectKind::ColorCycle,
        EffectKind::RainbowMorph,
        EffectKind::Rainbow,
        EffectKind::Meteor,
        EffectKind::Runway,
        EffectKind::Ripple,
    ]
}

/// One-line description of each effect.
pub open spec fn describe_kind(k: EffectKind) -> Seq<char> {
    match k {
        EffectKind::Static => "Fixed colour (default white)"@,
        EffectKind::Breathing => "Smooth brightness pulse, one breath per period"@,
        EffectKind::ColorCycle => "Whole device fades through the palette"@,
        EffectKind::RainbowMorph => "Whole device cycles through the hue wheel"@,
        EffectKind::Rainbow => "Moving rainbow across ring/strip position"@,
        EffectKind::Meteor => "Bright head with exponential trailing fade"@,
        EffectKind::Runway => "Marching on/off segments"@,
        EffectKind::Ripple => "Expanding pulse from origin, fades at the edge"@,
    }
}

/// Effects whose look depends on the direction of time.
pub open spec fn is_directional(k: EffectKind) -> bool {
    k is Rainbow || k is Meteor || k is Runway
}

impl EffectKind {
    /// All variants in definition order — used by the CLI catalog command.
    pub fn all() -> (r: [EffectKind; 8])
        ensures
            r@ == all_kinds(),
    {
        let r = [
            EffectKind::Static,
            EffectKind::Breathing,
            EffectKind::ColorCycle,
            EffectKind::RainbowMorph,
            EffectKind::Rainbow,
            EffectKind::Meteor,
            EffectKind::Runway,
            EffectKind::Ripple,
        ];
        assert(r@ =~= all_kinds());
        r
    }

    /// One-line description for the CLI `llw effects` listing.
    pub fn describe(&self) -> (r: &'static str)
        ensures
            r@ == describe_kind(*self),
    {
        match self {
            EffectKind::Static => "Fixed colour (default white)",
            EffectKind::Breathing => "Smooth brightness pulse, one breath per period",
            EffectKind::ColorCycle => "Whole device fades through the palette",
            EffectKind::RainbowMorph => "Whole device cycles through the hue wheel",
            EffectKind::Rainbow => "Moving rainbow across ring/strip position",
            EffectKind::Meteor => "Bright head with exponential trailing fade",
            EffectKind::Runway => "Marching on/off segments",
            EffectKind::Ripple => "Expanding pulse from origin, fades at the edge",
        }
    }

    /// `true` for effects where direction (Forward/Reverse) changes the visual.
    /// Uniform effects (Static, Breathing, ColorCycle, RainbowMorph, Ripple)
    /// are direction-invariant.
    pub fn directional(&self) -> (r: bool)
        ensures
            r == is_directional(*self),
    {
        matches!(self, EffectKind::Rainbow | EffectKind::Meteor | EffectKind::Runway)
    }
}

/// Animation direction. `Reverse` mirrors the time axis for directional
/// effects (`t → 1 − t`).
#[derive(Debug, Clone, Copy, PartialEq, Eq, Structural)]
pub enum Direction {
    Forward,
    Reverse,
}

impl Default for Direction {
    fn default() -> (d: Direction)
        ensures
            d == Direction::Forward,
    {
        Direction::Forward
    }
}

/// Complete specification for a single animated effect.
#[derive(Debug, Clone, PartialEq)]
pub struct EffectSpec {
    /// Which effect algorithm to run.
    pub kind: EffectKind,
    /// Colour palette. Interpretation varies by effect; empty → effect default
    /// (usually white). Maximum 8 entries enforced by the daemon validator.
    pub colors: Vec<[u8; 3]>,
    /// Animation speed 1..=5 (clamped). Maps to a period via [`period_ms`].
    pub speed: u8,
    /// Animation direction. Only applied to directional effects.
    pub direction: Direction,
    /// Brightness 0..=4. Applied as a `×(brightness/4)` post-render scale.
    pub brightness: u8,
}

/// Speed used when a spec omits it (3 = medium, 3 000 ms period).
pub fn default_speed() -> (r: u8)
    ensures
        r == 3,
{
    3
}

/// Brightness used when a spec omits it (4 = full).
pub fn default_brightness() -> (r: u8)
    ensures
        r == 4,
{
    4
}

/// Speed 1..=5 (clamped) → animation period in milliseconds.
pub open spec fn period_of_speed(speed: u8) -> u32 {
    if speed <= 1 {
        6000
    } else if speed == 2 {
        4200
    } else if speed == 3 {
        3000
    } else if speed == 4 {
        2100
    } else {
        1400
    }
}

/// Map speed (1..=5, clamped) to animation period in milliseconds.
///
/// | Speed | Period |
/// |-------|--------|
/// | 1     | 6 000 ms |
/// | 2     | 4 200 ms |
/// | 3     | 3 000 ms |
/// | 4     | 2 100 ms |
/// | 5     | 1 400 ms |
pub fn period_ms(speed: u8) -> (r: u32)
    ensures
        r == period_of_speed(speed),
{
    let table: [u32; 5] = [6000, 4200, 3000, 2100, 1400];
    let clamped: u8 = if speed < 1 {
        1
    } else if speed > 5 {
        5
    } else {
        speed
    };
    table[(clamped - 1) as usize]
}

/// How an animation is laid out in time: how many frames are rendered, the
/// per-frame interval, and whether phases run backwards.
#[derive(Debug, Clone, Copy, PartialEq, Eq, Structural)]
pub struct AnimationPlan {
    /// Frames to render (the request, at least 1).
    pub frames: u16,
    /// Per-frame interval: period / frames, at least 20 ms.
    pub interval_ms: u16,
    /// Frame `i` is rendered at phase `1 − i/frames` instead of `i/frames`.
    pub reverse: bool,
}

/// Frames rendered for a request of `frames`.
pub open spec fn planned_frames(frames: u16) -> u16 {
    if frames == 0 {
        1
    } else {
        frames
    }
}

/// Interval between frames for a speed and a frame count.
pub open spec fn planned_interval(speed: u8, frames: u16) -> u16 {
    let q = period_of_speed(speed) as int / planned_frames(frames) as int;
    if q < 20 {
        20
    } else {
        q as u16
    }
}

/// The time layout `render_animation` uses: frames clamped to at least 1,
/// `interval_ms = period_ms(speed) / frames` clamped to at least 20 ms, and
/// Reverse applied only to directional effects.
pub fn animation_plan(spec: &EffectSpec, frames: u16) -> (p: AnimationPlan)
    ensures
        p.frames == planned_frames(frames),
        p.interval_ms == planned_interval(spec.speed, frames),
        p.reverse == (spec.direction == Direction::Reverse && is_directional(spec.kind)),
{
    let frames = if frames == 0 {
        1
    } else {
        frames
    };
    let period = period_ms(spec.speed);
    let q = period / frames as u32;
    let interval_ms: u16 = if q < 20 {
        20
    } else {
        q as u16
    };
    let reverse = spec.direction == Direction::Reverse && spec.kind.directional();
    AnimationPlan { frames, interval_ms, reverse }
}

/// Physical LED layout for fan devices.
#[derive(Debug, Clone, Copy, PartialEq, Eq, Structural)]
pub enum FanLayout {
    /// LEDs are uniformly spaced around a single ring (prior assumption).
    UniformRing,
    /// SL-INF 44-LED/fan measured wiring — 5 segments, chase-probed.
    SlInf44,
}

impl Default for FanLayout {
    fn default() -> (l: FanLayout)
        ensures
            l == FanLayout::UniformRing,
    {
        FanLayout::UniformRing
    }
}

/// Abstract device geometry used by effect renderers.
///
/// Frame layout mirrors the wire format: fans concatenated fan0..fanN in ring
/// order; strip is linear. `Geometry::len()` gives the total LED count.
#[derive(Debug, Clone, Copy, PartialEq, Eq, Structural)]
pub enum Geometry {
    /// N fans × L LEDs per fan.
    Fans { fan_count: u8, leds_per_fan: u8, layout: FanLayout },
    /// Flat strip; LED `i` has position `p = i / total` ∈ [0, 1).
    Strip { total: u16 },
}

/// Total LEDs of a geometry.
pub open spec fn geometry_len(g: Geometry) -> nat {
    match g {
        Geometry::Fans { fan_count, leds_per_fan, .. } => (fan_count as int * leds_per_fan as int) as nat,
        Geometry::Strip { total } => total as nat,
    }
}

impl Geometry {
    /// Total number of LEDs.
    pub fn len(&self) -> (n: usize)
        ensures
            n == geometry_len(*self),
    {
        match self {
            Geometry::Fans { fan_count, leds_per_fan, .. } => {
                assert(*fan_count as int * *leds_per_fan as int <= 255 * 255) by (nonlinear_arith)
                    requires
                        *fan_count <= 255,
                        *leds_per_fan <= 255,
                ;
                *fan_count as usize * *leds_per_fan as usize
            },
            Geometry::Strip { total } => *total as usize,
        }
    }

    /// Returns `true` if there are no LEDs.
    pub fn is_empty(&self) -> (b: bool)
        ensures
            b == (geometry_len(*self) == 0),
    {
        self.len() == 0
    }
}

} // verus!
