use llw::effects::{
    animation_plan, default_brightness, default_speed, period_ms, Direction, EffectKind,
    EffectSpec, FanLayout, Geometry,
};

fn base_spec(kind: EffectKind) -> EffectSpec {
    EffectSpec { kind, colors: vec![], speed: 3, direction: Direction::Forward, brightness: 4 }
}

#[test]
fn period_table() {
    assert_eq!(period_ms(1), 6_000);
    assert_eq!(period_ms(2), 4_200);
    assert_eq!(period_ms(3), 3_000);
    assert_eq!(period_ms(4), 2_100);
    assert_eq!(period_ms(5), 1_400);
}

#[test]
fn period_clamped_low() {
    assert_eq!(period_ms(0), period_ms(1));
}

#[test]
fn period_clamped_high() {
    assert_eq!(period_ms(6), period_ms(5));
}

#[test]
fn interval_24_frames_speed3() {
    // period_ms(3) = 3000; 3000 / 24 = 125 ms
    let spec = base_spec(EffectKind::Static);
    let plan = animation_plan(&spec, 24);
    assert_eq!(plan.frames, 24);
    assert_eq!(plan.interval_ms, 125, "interval should be 125 ms for 24 frames @ speed 3");
}

#[test]
fn interval_clamped_to_20ms() {
    // Very high frame count should clamp interval to 20 ms.
    let mut spec = base_spec(EffectKind::Static);
    spec.speed = 5; // period = 1400 ms; 1400/200 = 7 ms → clamp to 20
    let plan = animation_plan(&spec, 200);
    assert_eq!(plan.interval_ms, 20, "interval must not go below 20 ms");
}

#[test]
fn frames_minimum_one() {
    let spec = base_spec(EffectKind::Static);
    let plan = animation_plan(&spec, 0);
    assert_eq!(plan.frames, 1, "render_animation must produce at least 1 frame");
    assert_eq!(plan.interval_ms, 3000);
}

#[test]
fn reverse_applies_to_directional_effects_only() {
    let mut spec = base_spec(EffectKind::Meteor);
    spec.direction = Direction::Reverse;
    assert!(animation_plan(&spec, 24).reverse);
    spec.kind = EffectKind::Ripple;
    assert!(!animation_plan(&spec, 24).reverse);
    spec.kind = EffectKind::Rainbow;
    spec.direction = Direction::Forward;
    assert!(!animation_plan(&spec, 24).reverse);
}

#[test]
fn directional_flags() {
    assert!(EffectKind::Rainbow.directional());
    assert!(EffectKind::Meteor.directional());
    assert!(EffectKind::Runway.directional());
    assert!(!EffectKind::Static.directional());
    assert!(!EffectKind::Breathing.directional());
    assert!(!EffectKind::Ripple.directional());
}

#[test]
fn catalog_order_and_descriptions() {
    let all = EffectKind::all();
    assert_eq!(all.len(), 8);
    assert_eq!(all[0], EffectKind::Static);
    assert_eq!(all[7], EffectKind::Ripple);
    assert_eq!(EffectKind::Static.describe(), "Fixed colour (default white)");
    assert_eq!(EffectKind::Runway.describe(), "Marching on/off segments");
}

#[test]
fn spec_defaults() {
    assert_eq!(default_speed(), 3);
    assert_eq!(default_brightness(), 4);
    assert_eq!(Direction::default(), Direction::Forward);
    assert_eq!(FanLayout::default(), FanLayout::UniformRing);
}

#[test]
fn len_fans() {
    let g = Geometry::Fans { fan_count: 3, leds_per_fan: 44, layout: FanLayout::UniformRing };
    assert_eq!(g.len(), 132);
}

#[test]
fn len_strip() {
    let g = Geometry::Strip { total: 200 };
    assert_eq!(g.len(), 200);
    assert!(!g.is_empty());
    assert!(Geometry::Strip { total: 0 }.is_empty());
}
