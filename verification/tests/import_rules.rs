use llw::config::{SlotSpeed, StaticColor};
use llw::migrate::{
    imported_color, is_static_mode, sensor_from_temp_command, slot_from_name, slot_from_percent,
    wireless_mac,
};

#[test]
fn temp_commands_map_to_known_chips() {
    let owner = "for h in /sys/class/hwmon/hwmon*; do if [ \"$(cat \"$h/name\" 2>/dev/null)\" = k10temp ]; then awk '{print $1/1000}' \"$h/temp1_input\"; exit; fi; done";
    let (s, known) = sensor_from_temp_command(owner);
    assert!(known);
    assert_eq!((s.hwmon_name.as_str(), s.input.as_str()), ("k10temp", "temp1_input"));
    let (s, known) = sensor_from_temp_command("sensors coretemp | read temp2_input");
    assert!(known);
    assert_eq!((s.hwmon_name.as_str(), s.input.as_str()), ("coretemp", "temp2_input"));
    let (s, known) = sensor_from_temp_command("zenpower");
    assert!(known);
    assert_eq!((s.hwmon_name.as_str(), s.input.as_str()), ("zenpower", "temp1_input"));
}

#[test]
fn unmappable_temp_command_defaults_and_says_so() {
    let (s, known) = sensor_from_temp_command("nvidia-smi --query-gpu=temperature.gpu");
    assert!(!known);
    assert_eq!((s.hwmon_name.as_str(), s.input.as_str()), ("k10temp", "temp1_input"));
}

#[test]
fn only_wireless_device_ids_are_ours() {
    assert_eq!(wireless_mac("wireless:02:8b:51:62:32:e1"), Some("02:8b:51:62:32:e1".to_string()));
    assert_eq!(wireless_mac("wired:1"), None);
    assert_eq!(wireless_mac("wireless"), None);
}

#[test]
fn slot_values() {
    assert_eq!(slot_from_percent(Some(40)), SlotSpeed::Percent(40));
    assert_eq!(slot_from_percent(Some(150)), SlotSpeed::Percent(100));
    assert_eq!(slot_from_percent(None), SlotSpeed::Percent(0));
    assert_eq!(slot_from_name(&"cpu".to_string()), (SlotSpeed::Curve("cpu".into()), false));
    assert_eq!(slot_from_name(&"__mb_sync__board".to_string()), (SlotSpeed::Percent(0), true));
}

#[test]
fn static_colors_only() {
    assert!(is_static_mode("Direct"));
    assert!(is_static_mode("Static"));
    assert!(!is_static_mode("Rainbow"));
    assert!(!is_static_mode("Statics"));
    assert_eq!(imported_color(255, 16, 0, Some(2)), StaticColor { rgb: [255, 16, 0], brightness: 2 });
    assert_eq!(imported_color(256, 0, 0, Some(9)), StaticColor { rgb: [0, 0, 0], brightness: 4 });
    assert_eq!(imported_color(1, 2, 3, None), StaticColor { rgb: [1, 2, 3], brightness: 4 });
}
