use ctest::c14::{
    check_response_ok, parse_history_record, parse_instant_data, C14Error, C14Sampler, Request,
    BIT_ENV_HUMIDITY, BIT_ENV_TEMP, BIT_INSTANT_FLOW, BIT_PRESSURE, BIT_STANDARD_MODE,
    BIT_STANDARD_VOLUME, BIT_WORKING_VOLUME, INSTANT_MASK_DEFAULT,
};
use ctest::types::{DeviceDateTime, DeviceStatus, SampleMode};

#[test]
fn device_type_is_c14() {
    assert_eq!(C14Sampler::device_type(), 0x04);
}

#[test]
fn default_mask_selects_all_read_fields() {
    assert_eq!(
        INSTANT_MASK_DEFAULT,
        BIT_ENV_TEMP
            | BIT_INSTANT_FLOW
            | BIT_ENV_HUMIDITY
            | BIT_PRESSURE
            | BIT_STANDARD_VOLUME
            | BIT_STANDARD_MODE
            | BIT_WORKING_VOLUME
    );
    assert_eq!(INSTANT_MASK_DEFAULT, 0x03EA);
}

#[test]
fn query_requests() {
    let q = Request::query(0x77);
    assert_eq!((q.func, q.data), (0x77, vec![0x00]));
    let r = C14Sampler::query_history_count_request();
    assert_eq!((r.func, r.data), (0xA0, vec![0x00]));
    let r = C14Sampler::query_status_request();
    assert_eq!((r.func, r.data), (0xC0, vec![0x00]));
    let r = C14Sampler::query_device_time_request();
    assert_eq!((r.func, r.data), (0xC2, vec![0x00]));
    let r = C14Sampler::stop_sampling_request();
    assert_eq!((r.func, r.data), (0x20, vec![0x00]));
    let r = C14Sampler::link_test_request();
    assert_eq!((r.func, r.data), (0xFA, vec![0x00]));
}

#[test]
fn history_count_reply() {
    assert_eq!(
        C14Sampler::query_history_count_reply(&[0xA1, 0x04, 0x00, 0x01, 0x02]).unwrap(),
        258
    );
    match C14Sampler::query_history_count_reply(&[0xA1, 0x04, 0x00, 0x01]) {
        Err(C14Error::ShortResponse { op, len }) => {
            assert_eq!(op, "query_history_count");
            assert_eq!(len, 4);
        }
        other => panic!("unexpected {:?}", other),
    }
}

fn history_bytes() -> Vec<u8> {
    let mut d = vec![0u8; 57];
    d[19..24].copy_from_slice(&[24, 1, 2, 3, 4]);
    d[24..29].copy_from_slice(&[24, 1, 3, 5, 6]);
    d[29..33].copy_from_slice(&0.5f32.to_be_bytes());
    d[33..37].copy_from_slice(&1000.25f32.to_be_bytes());
    d[39..43].copy_from_slice(&101.3f32.to_be_bytes());
    d[43..45].copy_from_slice(&(-20i16).to_be_bytes());
    d[45..49].copy_from_slice(&0.6f32.to_be_bytes());
    d[49..53].copy_from_slice(&1100.0f32.to_be_bytes());
    d[53..57].copy_from_slice(&(-3.5f32).to_be_bytes());
    d
}

#[test]
fn history_record_fields() {
    let rec = parse_history_record(7, &history_bytes()).unwrap();
    assert_eq!(rec.index, 7);
    assert_eq!(
        rec.start_time,
        DeviceDateTime { year: 2024, month: 1, day: 2, hour: 3, minute: 4, second: 0 }
    );
    assert_eq!(
        rec.end_time,
        DeviceDateTime { year: 2024, month: 1, day: 3, hour: 5, minute: 6, second: 0 }
    );
    assert_eq!(f32::from_bits(rec.avg_flow_lpm), 0.5);
    assert_eq!(f32::from_bits(rec.standard_volume_l), 1000.25);
    assert_eq!(f32::from_bits(rec.pressure_kpa), 101.3);
    assert_eq!(rec.standard_mode_c, -20);
    assert_eq!(f32::from_bits(rec.set_flow_lpm), 0.6);
    assert_eq!(f32::from_bits(rec.working_volume_l), 1100.0);
    assert_eq!(f32::from_bits(rec.env_temperature_c), -3.5);
}

#[test]
fn history_record_too_short() {
    match parse_history_record(1, &[0u8; 56]) {
        Err(C14Error::HistoryTooShort(56)) => {}
        other => panic!("unexpected {:?}", other),
    }
}

#[test]
fn read_history_request_and_reply() {
    let r = C14Sampler::read_history_request(0x0102);
    assert_eq!((r.func, r.data), (0xB0, vec![0x01, 0x02]));
    let mut payload = vec![0xB1, 0x04, 0x01, 0x02];
    payload.extend_from_slice(&history_bytes());
    let rec = C14Sampler::read_history_reply(0x0102, &payload).unwrap();
    assert_eq!(rec, parse_history_record(0x0102, &history_bytes()).unwrap());
    match C14Sampler::read_history_reply(3, &payload[..60]) {
        Err(C14Error::ShortResponse { op, len }) => {
            assert_eq!(op, "read_history");
            assert_eq!(len, 60);
        }
        other => panic!("unexpected {:?}", other),
    }
}

#[test]
fn status_reply() {
    assert_eq!(
        C14Sampler::query_status_reply(&[0xC1, 0x04, 0x00, 0x04]).unwrap(),
        DeviceStatus::Sampling
    );
    assert_eq!(
        C14Sampler::query_status_reply(&[0xC1, 0x04, 0x00, 0x02, 0x09]).unwrap(),
        DeviceStatus::Unknown(0x02)
    );
    assert!(matches!(
        C14Sampler::query_status_reply(&[0xC1, 0x04, 0x00]),
        Err(C14Error::ShortResponse { len: 3, .. })
    ));
}

#[test]
fn device_time_reply() {
    let t = C14Sampler::query_device_time_reply(&[0xC3, 0x04, 0x00, 24, 3, 5, 8, 9, 10]).unwrap();
    assert_eq!(
        t,
        DeviceDateTime { year: 2024, month: 3, day: 5, hour: 8, minute: 9, second: 10 }
    );
    assert!(matches!(
        C14Sampler::query_device_time_reply(&[0xC3, 0x04, 0x00, 24, 3, 5, 8, 9]),
        Err(C14Error::ShortResponse { len: 8, .. })
    ));
}

#[test]
fn device_time_set_then_read() {
    for year in [2000u16, 2024, 2255] {
        let r = C14Sampler::set_device_time_request(year, 12, 31, 23, 59, 58);
        assert_eq!(r.func, 0x60);
        let mut payload = vec![0xC3, 0x04, 0x00];
        payload.extend_from_slice(&r.data);
        let t = C14Sampler::query_device_time_reply(&payload).unwrap();
        assert_eq!(
            t,
            DeviceDateTime { year, month: 12, day: 31, hour: 23, minute: 59, second: 58 }
        );
    }
}

#[test]
fn year_byte_saturates_then_wraps() {
    let r = C14Sampler::set_device_time_request(1999, 1, 1, 0, 0, 0);
    assert_eq!(r.data, vec![0, 1, 1, 0, 0, 0]);
    let r = C14Sampler::set_scheduled_start_request(2300, 1, 2, 3, 4);
    assert_eq!((r.func, r.data), (0x28, vec![44, 1, 2, 3, 4]));
    let r = C14Sampler::set_scheduled_start_request(2024, 6, 7, 8, 9);
    assert_eq!(r.data, vec![24, 6, 7, 8, 9]);
}

fn instant_bytes() -> Vec<u8> {
    let mut d = Vec::new();
    d.extend_from_slice(&21.5f32.to_be_bytes());
    d.extend_from_slice(&0.6f32.to_be_bytes());
    d.extend_from_slice(&45.0f32.to_be_bytes());
    d.extend_from_slice(&101.0f32.to_be_bytes());
    d.extend_from_slice(&12.5f32.to_be_bytes());
    d.extend_from_slice(&20i16.to_be_bytes());
    d.extend_from_slice(&13.0f32.to_be_bytes());
    d
}

#[test]
fn instant_default_mask() {
    let d = parse_instant_data(INSTANT_MASK_DEFAULT, &instant_bytes()).unwrap();
    assert_eq!(d.env_temperature_c.map(f32::from_bits), Some(21.5));
    assert_eq!(d.instant_flow_standard_lpm.map(f32::from_bits), Some(0.6));
    assert_eq!(d.env_humidity_pct.map(f32::from_bits), Some(45.0));
    assert_eq!(d.pressure_kpa.map(f32::from_bits), Some(101.0));
    assert_eq!(d.standard_volume_l.map(f32::from_bits), Some(12.5));
    assert_eq!(d.standard_mode_c, Some(20));
    assert_eq!(d.working_volume_l.map(f32::from_bits), Some(13.0));
}

#[test]
fn instant_truncated() {
    let bytes = instant_bytes();
    assert!(matches!(
        parse_instant_data(INSTANT_MASK_DEFAULT, &bytes[..bytes.len() - 1]),
        Err(C14Error::InstantTruncated)
    ));
    assert!(matches!(
        parse_instant_data(BIT_STANDARD_MODE, &[0x01]),
        Err(C14Error::InstantTruncated)
    ));
}

#[test]
fn instant_empty_mask_and_skipped_fields() {
    let d = parse_instant_data(0, &[]).unwrap();
    assert_eq!(d.env_temperature_c, None);
    assert_eq!(d.working_volume_l, None);
    assert_eq!(d.standard_mode_c, None);
    // bits 0 and 4 only move the position; they need no bytes of their own
    let d = parse_instant_data(0x0011, &[]).unwrap();
    assert_eq!(d.env_temperature_c, None);
    let d = parse_instant_data(0x0001 | BIT_ENV_TEMP, &[9, 9, 0x3F, 0x80, 0x00, 0x00]).unwrap();
    assert_eq!(d.env_temperature_c.map(f32::from_bits), Some(1.0));
    let d = parse_instant_data(0x0010 | BIT_ENV_HUMIDITY | 0xFC00, &[9, 9, 0x40, 0x00, 0x00, 0x00])
        .unwrap();
    assert_eq!(d.env_humidity_pct.map(f32::from_bits), Some(2.0));
    assert_eq!(d.env_temperature_c, None);
    let d = parse_instant_data(BIT_STANDARD_MODE, &[0xFF, 0xFE]).unwrap();
    assert_eq!(d.standard_mode_c, Some(-2));
}

#[test]
fn instant_request_and_reply() {
    let r = C14Sampler::query_instant_request(INSTANT_MASK_DEFAULT);
    assert_eq!((r.func, r.data), (0xD0, vec![0x03, 0xEA]));
    let mut payload = vec![0xD1, 0x04, 0x03, 0xEA];
    payload.extend_from_slice(&instant_bytes());
    let d = C14Sampler::query_instant_reply(INSTANT_MASK_DEFAULT, &payload).unwrap();
    assert_eq!(d, parse_instant_data(INSTANT_MASK_DEFAULT, &instant_bytes()).unwrap());
    assert!(matches!(
        C14Sampler::query_instant_reply(0, &[0xD1, 0x04, 0x00]),
        Err(C14Error::ShortResponse { len: 3, .. })
    ));
}

#[test]
fn response_check() {
    assert!(check_response_ok(&[0xF1, 0x00], 0xF1, "start_sampling").is_ok());
    assert!(check_response_ok(&[0xF1], 0xF1, "start_sampling").is_ok());
    match check_response_ok(&[], 0xF1, "start_sampling") {
        Err(C14Error::EmptyResponse { op }) => assert_eq!(op, "start_sampling"),
        other => panic!("unexpected {:?}", other),
    }
    match check_response_ok(&[0xF2, 0x00], 0xF1, "start_sampling") {
        Err(C14Error::UnexpectedDf { op, got, expected }) => {
            assert_eq!(op, "start_sampling");
            assert_eq!((got, expected), (0xF2, 0xF1));
        }
        other => panic!("unexpected {:?}", other),
    }
    match check_response_ok(&[0xF1, 0x04, 0xFF], 0xF1, "start_sampling") {
        Err(C14Error::DeviceFailure { op }) => assert_eq!(op, "start_sampling"),
        other => panic!("unexpected {:?}", other),
    }
    assert!(matches!(
        check_response_ok(&[0xFF], 0xFF, "x"),
        Err(C14Error::DeviceFailure { .. })
    ));
}

#[test]
fn start_and_stop_sampling() {
    let r = C14Sampler::start_sampling_request(SampleMode::Timed);
    assert_eq!((r.func, r.data), (0xF0, vec![0x01]));
    let r = C14Sampler::start_sampling_request(SampleMode::Quantitative);
    assert_eq!(r.data, vec![0x00]);
    assert!(C14Sampler::start_sampling_reply(&[0xF1, 0x00]).is_ok());
    assert!(C14Sampler::start_sampling_reply(&[0x21, 0x00]).is_err());
    assert!(C14Sampler::stop_sampling_reply(&[0x21, 0x00]).is_ok());
    assert!(C14Sampler::stop_sampling_reply(&[0x21, 0xFF]).is_err());
}

#[test]
fn cycle_time_limits() {
    assert!(matches!(
        C14Sampler::set_cycle_time_request(10, 0),
        Err(C14Error::InvalidCycleTime { hours: 10, minutes: 0 })
    ));
    assert!(matches!(
        C14Sampler::set_cycle_time_request(0, 60),
        Err(C14Error::InvalidCycleTime { hours: 0, minutes: 60 })
    ));
    let r = C14Sampler::set_cycle_time_request(9, 59).unwrap();
    assert_eq!((r.func, r.data), (0x26, vec![9, 59]));
    assert!(C14Sampler::set_cycle_time_reply(&[0x27]).is_ok());
}

#[test]
fn sample_duration_limits() {
    assert!(matches!(
        C14Sampler::set_sample_duration_request(1000, 0),
        Err(C14Error::InvalidSampleDuration { duration_hours: 1000, duration_minutes: 0 })
    ));
    assert!(matches!(
        C14Sampler::set_sample_duration_request(1, 60),
        Err(C14Error::InvalidSampleDuration { duration_hours: 1, duration_minutes: 60 })
    ));
    let r = C14Sampler::set_sample_duration_request(999, 59).unwrap();
    assert_eq!((r.func, r.data), (0x40, vec![0x03, 0xE7, 59]));
    assert!(C14Sampler::set_sample_duration_reply(&[0x41, 0x00]).is_ok());
}

#[test]
fn sample_flow_request() {
    let r = C14Sampler::set_sample_flow_request(0.6f32.to_bits());
    assert_eq!((r.func, r.data), (0x30, 0.6f32.to_be_bytes().to_vec()));
    assert!(C14Sampler::set_sample_flow_reply(&[0x31, 0x00]).is_ok());
    assert!(C14Sampler::set_scheduled_start_reply(&[0x28]).is_ok());
    assert!(C14Sampler::set_device_time_reply(&[0x61]).is_ok());
    assert!(C14Sampler::set_device_time_reply(&[0x60]).is_err());
}

#[test]
fn link_test_reply() {
    assert!(C14Sampler::link_test_reply(&[0xFB]).is_ok());
    assert!(C14Sampler::link_test_reply(&[0xFB, 0x04, 0x00]).is_ok());
    assert!(matches!(
        C14Sampler::link_test_reply(&[]),
        Err(C14Error::LinkTestFailed(None))
    ));
    assert!(matches!(
        C14Sampler::link_test_reply(&[0xFA]),
        Err(C14Error::LinkTestFailed(Some(0xFA)))
    ));
}

#[test]
fn instant_fields_follow_mask() {
    let d = parse_instant_data(0xFC15, &[]).unwrap();
    assert_eq!(d.env_temperature_c, None);
    assert_eq!(d.instant_flow_standard_lpm, None);
    assert_eq!(d.env_humidity_pct, None);
    assert_eq!(d.pressure_kpa, None);
    assert_eq!(d.standard_volume_l, None);
    assert_eq!(d.standard_mode_c, None);
    assert_eq!(d.working_volume_l, None);
    let d = parse_instant_data(BIT_PRESSURE | BIT_WORKING_VOLUME, &[0u8; 8]).unwrap();
    assert!(d.pressure_kpa.is_some() && d.working_volume_l.is_some());
    assert!(d.env_temperature_c.is_none() && d.standard_mode_c.is_none());
}
