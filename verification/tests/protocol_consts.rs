use llw::consts::{cmd_get_dev, cmd_reset, RF_CHUNKS, RF_CHUNK_SIZE, RF_DATA_SIZE, USB_CMD_SEND_RF};
use llw::device_kind::DeviceKind;

#[test]
fn reset_command_layout() {
    let cmd = cmd_reset();
    assert_eq!(cmd[0], 0x11);
    assert_eq!(cmd[1], 0x08);
    assert_eq!(&cmd[2..], &[0u8; 62][..]);
    assert_eq!(cmd.len(), 64);
}

#[test]
fn getdev_command_layout() {
    let cmd = cmd_get_dev();
    assert_eq!(cmd[0], USB_CMD_SEND_RF);
    assert_eq!(cmd[1], 0x01);
}

#[test]
fn rf_geometry() {
    assert_eq!(RF_CHUNKS, 4);
    assert_eq!(RF_CHUNKS * RF_CHUNK_SIZE, RF_DATA_SIZE);
}

#[test]
fn sl_inf_classification_and_geometry() {
    for b in 36..=39u8 {
        assert_eq!(DeviceKind::from_fan_type_byte(b), DeviceKind::SlInf);
    }
    assert_eq!(DeviceKind::SlInf.leds_per_fan(), 44);
    assert_eq!(DeviceKind::SlInf.min_duty_percent(), 11);
    assert!(!DeviceKind::SlInf.is_rgb_only());
}

#[test]
fn strimer_led_counts_by_subtype() {
    assert_eq!(DeviceKind::Strimer(1).led_count_override(), Some(116));
    assert_eq!(DeviceKind::Strimer(2).led_count_override(), Some(132));
    assert_eq!(DeviceKind::Strimer(3).led_count_override(), Some(174));
    assert_eq!(DeviceKind::Strimer(9).led_count_override(), Some(88));
    assert!(DeviceKind::Strimer(2).is_rgb_only());
    assert_eq!(DeviceKind::Strimer(2).min_duty_percent(), 0);
}

#[test]
fn boundary_bytes() {
    assert_eq!(DeviceKind::from_fan_type_byte(19), DeviceKind::Unknown);
    assert_eq!(DeviceKind::from_fan_type_byte(20), DeviceKind::Slv3Led);
    assert_eq!(DeviceKind::from_fan_type_byte(27), DeviceKind::Tlv2Lcd);
    assert_eq!(DeviceKind::from_fan_type_byte(28), DeviceKind::Tlv2Led);
    assert_eq!(DeviceKind::from_fan_type_byte(43), DeviceKind::Unknown);
}

#[test]
fn display_names_and_aio_facts() {
    assert_eq!(DeviceKind::SlInf.display_name(), "UNI FAN SL-INF Wireless");
    assert!(DeviceKind::WaterBlock.is_aio());
    assert!(!DeviceKind::SlInf.is_aio());
    assert_eq!(DeviceKind::Strimer(2).leds_per_fan(), 0);
}
