use llw::config::{
    add_device_if_missing, parse_mac, remove_device, set_device_color, set_device_effect,
    validate_devices, validate_effect, ConfigError, DeviceConfig, DeviceEditError, EffectError,
    ObservationConfig, ReliabilityConfig, SlotSpeed, StaticColor,
};
use llw::effects::{Direction, EffectKind, EffectSpec};
use llw::hex::MacError;

#[test]
fn parses_mac() {
    assert_eq!(parse_mac("02:8b:51:62:32:e1").unwrap(), [0x02, 0x8b, 0x51, 0x62, 0x32, 0xe1]);
    assert!(parse_mac("02:8b:51").is_err());
    assert!(parse_mac("zz:8b:51:62:32:e1").is_err());
}

#[test]
fn parse_mac_errors_name_the_problem() {
    assert_eq!(parse_mac("02:8b:51"), Err(MacError::OctetCount(3)));
    assert_eq!(parse_mac("02:8b:51:62:32:zz"), Err(MacError::Octet(5)));
    // from_str_radix accepts one digit and a leading '+'
    assert_eq!(parse_mac("2:+b:51:62:32:E1").unwrap(), [0x02, 0x0b, 0x51, 0x62, 0x32, 0xe1]);
}

fn effect(speed: u8, brightness: u8, colors: usize) -> EffectSpec {
    EffectSpec {
        kind: EffectKind::Ripple,
        colors: vec![[1, 2, 3]; colors],
        speed,
        direction: Direction::Forward,
        brightness,
    }
}

#[test]
fn effect_rules_in_order() {
    assert_eq!(validate_effect(&effect(3, 4, 8)), Ok(()));
    assert_eq!(validate_effect(&effect(0, 9, 9)), Err(EffectError::Speed(0)));
    assert_eq!(validate_effect(&effect(6, 4, 0)), Err(EffectError::Speed(6)));
    assert_eq!(validate_effect(&effect(5, 5, 9)), Err(EffectError::Brightness(5)));
    assert_eq!(validate_effect(&effect(1, 0, 9)), Err(EffectError::Palette(9)));
}

#[test]
fn config_defaults() {
    let r = ReliabilityConfig::default();
    assert_eq!((r.grace_s, r.dropout_threshold, r.window_s), (120, 5, 60));
    assert_eq!((r.tier1_cooldown_s, r.tier2_cooldown_s, r.tier2_after_failed_tier1), (60, 300, 2));
    let o = ObservationConfig::default();
    assert_eq!((o.consecutive_polls, o.poll_ms), (2, 500));
}

fn device(mac: &str, slots: [SlotSpeed; 4]) -> DeviceConfig {
    DeviceConfig { mac: mac.to_string(), name: None, slots, color: None, effect: None }
}

fn pct4(p: u8) -> [SlotSpeed; 4] {
    [SlotSpeed::Percent(p), SlotSpeed::Percent(p), SlotSpeed::Percent(p), SlotSpeed::Percent(p)]
}

#[test]
fn device_rules_report_first_offender() {
    let names = vec!["cpu".to_string()];
    let ok = device("02:8b:51:62:32:e1", [
        SlotSpeed::Curve("cpu".into()),
        SlotSpeed::Percent(100),
        SlotSpeed::Percent(0),
        SlotSpeed::Percent(0),
    ]);
    assert_eq!(validate_devices(&vec![ok.clone()], &names), Ok(()));

    let bad_mac = device("02:8b", pct4(0));
    assert_eq!(
        validate_devices(&vec![ok.clone(), bad_mac], &names),
        Err(ConfigError::Mac { device: 1, err: MacError::OctetCount(2) })
    );

    let unknown = device("02:8b:51:62:32:e2", [
        SlotSpeed::Percent(0),
        SlotSpeed::Curve("gpu".into()),
        SlotSpeed::Percent(101),
        SlotSpeed::Percent(0),
    ]);
    assert_eq!(
        validate_devices(&vec![unknown], &names),
        Err(ConfigError::UnknownCurve { device: 0, slot: 1 })
    );

    let too_fast = device("02:8b:51:62:32:e3", pct4(101));
    assert_eq!(
        validate_devices(&vec![too_fast], &names),
        Err(ConfigError::SlotPercent { device: 0, slot: 0, percent: 101 })
    );

    let mut bright = device("02:8b:51:62:32:e4", pct4(0));
    bright.color = Some(StaticColor { rgb: [1, 2, 3], brightness: 5 });
    assert_eq!(
        validate_devices(&vec![bright], &names),
        Err(ConfigError::Brightness { device: 0, brightness: 5 })
    );

    let mut fx = device("02:8b:51:62:32:e5", pct4(0));
    fx.effect = Some(effect(0, 4, 0));
    assert_eq!(
        validate_devices(&vec![fx], &names),
        Err(ConfigError::Effect { device: 0, err: EffectError::Speed(0) })
    );
}

#[test]
fn set_color_and_effect_edit_the_named_device() {
    let mut ds = vec![device("aa", pct4(0)), device("bb", pct4(40))];
    assert_eq!(
        set_device_color(&mut ds, &"bb".to_string(), [1, 2, 3], 5),
        Err(DeviceEditError::Brightness(5))
    );
    assert_eq!(
        set_device_color(&mut ds, &"cc".to_string(), [1, 2, 3], 4),
        Err(DeviceEditError::UnknownDevice)
    );
    assert_eq!(set_device_color(&mut ds, &"bb".to_string(), [1, 2, 3], 4), Ok(()));
    assert_eq!(ds[1].color, Some(StaticColor { rgb: [1, 2, 3], brightness: 4 }));
    assert_eq!(ds[0].color, None);
    assert_eq!(ds.len(), 2);

    assert_eq!(
        set_device_effect(&mut ds, &"aa".to_string(), effect(9, 4, 0)),
        Err(DeviceEditError::Effect(EffectError::Speed(9)))
    );
    assert_eq!(set_device_effect(&mut ds, &"aa".to_string(), effect(2, 4, 1)), Ok(()));
    assert_eq!(ds[0].effect, Some(effect(2, 4, 1)));
    assert_eq!(ds[1].effect, None);
}

#[test]
fn unbind_and_bind_edit_the_device_list() {
    let mut ds = vec![device("aa", pct4(0)), device("bb", pct4(40)), device("aa", pct4(1))];
    remove_device(&mut ds, &"aa".to_string());
    assert_eq!(ds.len(), 1);
    assert_eq!(ds[0].mac, "bb");

    // re-bind of a configured device keeps its slots
    add_device_if_missing(&mut ds, "bb".to_string(), Some("cpu".to_string()));
    assert_eq!(ds.len(), 1);
    assert_eq!(ds[0].slots, pct4(40));

    add_device_if_missing(&mut ds, "cc".to_string(), Some("cpu".to_string()));
    assert_eq!(ds.len(), 2);
    assert_eq!(ds[1].mac, "cc");
    assert_eq!(ds[1].slots[3], SlotSpeed::Curve("cpu".into()));

    add_device_if_missing(&mut ds, "dd".to_string(), None);
    assert_eq!(ds[2].slots, pct4(40));
}

/// The sample configuration's device list and curve names: one device whose
/// first three slots follow the "cpu" curve.
fn sample_devices() -> Vec<DeviceConfig> {
    vec![DeviceConfig {
        mac: "02:8b:51:62:32:e1".into(),
        name: Some("top fans".into()),
        slots: [
            SlotSpeed::Curve("cpu".into()),
            SlotSpeed::Curve("cpu".into()),
            SlotSpeed::Curve("cpu".into()),
            SlotSpeed::Percent(0),
        ],
        color: Some(StaticColor { rgb: [255, 255, 255], brightness: 4 }),
        effect: None,
    }]
}

fn sample_curve_names() -> Vec<String> {
    vec!["cpu".to_string()]
}

fn ripple_device(speed: u8, brightness: u8, colors: Vec<[u8; 3]>) -> Vec<DeviceConfig> {
    vec![DeviceConfig {
        mac: "02:8b:51:62:32:e1".into(),
        name: None,
        slots: pct4(0),
        color: None,
        effect: Some(EffectSpec {
            kind: EffectKind::Ripple,
            colors,
            speed,
            direction: Direction::Forward,
            brightness,
        }),
    }]
}

#[test]
fn unknown_curve_reference_rejected() {
    assert!(validate_devices(&sample_devices(), &sample_curve_names()).is_ok());
    let no_curves: Vec<String> = Vec::new();
    assert!(validate_devices(&sample_devices(), &no_curves).is_err());
}

#[test]
fn out_of_range_percent_rejected() {
    let mut devices = sample_devices();
    devices[0].slots[0] = SlotSpeed::Percent(150);
    assert!(validate_devices(&devices, &sample_curve_names()).is_err());
}

#[test]
fn effect_validation_rejects_speed_zero() {
    assert!(validate_devices(&ripple_device(0, 4, vec![]), &Vec::new()).is_err(), "speed 0 must be rejected");
}

#[test]
fn effect_validation_rejects_speed_out_of_range() {
    assert!(validate_devices(&ripple_device(6, 4, vec![]), &Vec::new()).is_err(), "speed 6 must be rejected");
}

#[test]
fn effect_validation_rejects_brightness_overflow() {
    assert!(validate_devices(&ripple_device(3, 5, vec![]), &Vec::new()).is_err(), "brightness 5 must be rejected");
}

#[test]
fn effect_validation_rejects_too_many_colors() {
    assert!(
        validate_devices(&ripple_device(3, 4, vec![[0, 0, 0]; 9]), &Vec::new()).is_err(),
        "palette > 8 entries must be rejected"
    );
}
