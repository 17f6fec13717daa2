use ctest::types::{DeviceDateTime, DeviceStatus, SampleMode};

#[test]
fn status_from_byte_known_codes() {
    assert_eq!(DeviceStatus::from_byte(0x00), DeviceStatus::Idle);
    assert_eq!(DeviceStatus::from_byte(0x01), DeviceStatus::Waiting);
    assert_eq!(DeviceStatus::from_byte(0x03), DeviceStatus::Preparing);
    assert_eq!(DeviceStatus::from_byte(0x04), DeviceStatus::Sampling);
    assert_eq!(DeviceStatus::from_byte(0x05), DeviceStatus::TempDefrost);
    assert_eq!(DeviceStatus::from_byte(0x06), DeviceStatus::Defrosting);
    assert_eq!(DeviceStatus::from_byte(0x07), DeviceStatus::Paused);
    assert_eq!(DeviceStatus::from_byte(0x08), DeviceStatus::Stopped);
    assert_eq!(DeviceStatus::from_byte(0x09), DeviceStatus::Cooling);
}

#[test]
fn status_from_byte_unknown_codes() {
    assert_eq!(DeviceStatus::from_byte(0x02), DeviceStatus::Unknown(0x02));
    assert_eq!(DeviceStatus::from_byte(0x0A), DeviceStatus::Unknown(0x0A));
    assert_eq!(DeviceStatus::from_byte(0xFF), DeviceStatus::Unknown(0xFF));
}

#[test]
fn status_from_byte_is_injective() {
    for a in 0u16..256 {
        for b in 0u16..256 {
            if a != b {
                assert_ne!(DeviceStatus::from_byte(a as u8), DeviceStatus::from_byte(b as u8));
            }
        }
    }
}

#[test]
fn status_text() {
    assert_eq!(DeviceStatus::Idle.to_display_string(), "空闲");
    assert_eq!(DeviceStatus::Sampling.to_display_string(), "采样");
    assert_eq!(DeviceStatus::TempDefrost.to_display_string(), "临时化霜");
    assert_eq!(DeviceStatus::Cooling.to_display_string(), "冷却");
    assert_eq!(DeviceStatus::Unknown(0x0A).to_display_string(), "未知(0x0A)");
    assert_eq!(DeviceStatus::Unknown(0xFE).to_display_string(), "未知(0xFE)");
}

#[test]
fn datetime_from_five_bytes() {
    let t = DeviceDateTime::from_bytes(&[24, 3, 5, 8, 9]);
    assert_eq!(
        t,
        DeviceDateTime { year: 2024, month: 3, day: 5, hour: 8, minute: 9, second: 0 }
    );
}

#[test]
fn datetime_from_six_bytes() {
    let t = DeviceDateTime::from_bytes(&[255, 12, 31, 23, 59, 58, 7]);
    assert_eq!(
        t,
        DeviceDateTime { year: 2255, month: 12, day: 31, hour: 23, minute: 59, second: 58 }
    );
}

#[test]
fn datetime_text() {
    let t = DeviceDateTime { year: 2024, month: 3, day: 5, hour: 8, minute: 9, second: 0 };
    assert_eq!(t.to_display_string(), "2024-03-05 08:09:00");
    let t = DeviceDateTime { year: 5, month: 255, day: 10, hour: 0, minute: 0, second: 100 };
    assert_eq!(t.to_display_string(), "0005-255-10 00:00:100");
    let t = DeviceDateTime { year: 65535, month: 1, day: 1, hour: 1, minute: 1, second: 1 };
    assert_eq!(t.to_display_string(), "65535-01-01 01:01:01");
}

#[test]
fn mode_from_flag() {
    assert_eq!(SampleMode::from_flag("quant"), Some(SampleMode::Quantitative));
    assert_eq!(SampleMode::from_flag("Quantitative"), Some(SampleMode::Quantitative));
    assert_eq!(SampleMode::from_flag("0"), Some(SampleMode::Quantitative));
    assert_eq!(SampleMode::from_flag("TIMED"), Some(SampleMode::Timed));
    assert_eq!(SampleMode::from_flag("time"), Some(SampleMode::Timed));
    assert_eq!(SampleMode::from_flag("1"), Some(SampleMode::Timed));
    assert_eq!(SampleMode::from_flag(" timed"), None);
    assert_eq!(SampleMode::from_flag("2"), None);
    assert_eq!(SampleMode::from_flag(""), None);
    assert_eq!(SampleMode::from_flag("timé"), None);
}

#[test]
fn mode_code_names_the_mode() {
    for mode in [SampleMode::Quantitative, SampleMode::Timed] {
        let flag = mode.code().to_string();
        assert_eq!(SampleMode::from_flag(&flag), Some(mode));
    }
    assert_eq!(SampleMode::Quantitative.code(), 0);
    assert_eq!(SampleMode::Timed.code(), 1);
}
