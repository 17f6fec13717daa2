use ctest::transport::{
    build_frame, checksum, connect_target, parse_frame_header, parse_frame_tail, to_hex, to_hex_payload,
    FrameError,
};

#[test]
fn checksum_is_sum_modulo_256() {
    assert_eq!(checksum(&[1, 2, 3]), 6);
    assert_eq!(checksum(&[0xFF, 0x02]), 0x01);
    assert_eq!(checksum(&[]), 0);
}

#[test]
fn build_frame_of_query() {
    assert_eq!(
        build_frame(0xA0, 0x04, &[0x00]),
        vec![0x68, 0x03, 0x03, 0x68, 0xA0, 0x04, 0x00, 0xA4, 0x0D]
    );
}

#[test]
fn build_frame_length_byte_wraps_past_255() {
    let data = vec![0u8; 300];
    let frame = build_frame(0x01, 0x04, &data);
    assert_eq!(frame.len(), 308);
    assert_eq!(frame[1], (302 % 256) as u8);
    assert_eq!(frame[2], (302 % 256) as u8);
    assert_eq!(frame[306], 0x05);
    assert_eq!(frame[307], 0x0D);
}

#[test]
fn to_hex_formats_bytes() {
    assert_eq!(to_hex(&[0x68, 0x0A, 0xff]), "68 0A FF");
    assert_eq!(to_hex(&[0x00]), "00");
    assert_eq!(to_hex(&[]), "");
}

#[test]
fn to_hex_payload_frames_the_payload() {
    assert_eq!(to_hex_payload(&[0xFB, 0x04]), "68 02 02 68 FB 04 FF 0D");
    assert_eq!(to_hex_payload(&[]), "68 00 00 68 00 0D");
}

#[test]
fn to_hex_payload_matches_built_frame() {
    let frame = build_frame(0xD0, 0x04, &[0x03, 0xEA]);
    assert_eq!(to_hex_payload(&frame[4..frame.len() - 2]), to_hex(&frame));
}

#[test]
fn header_is_checked() {
    assert_eq!(parse_frame_header(&[0x68, 0x03, 0x03, 0x68]), Ok(3));
    assert_eq!(
        parse_frame_header(&[0x67, 0x03, 0x03, 0x68]),
        Err(FrameError::InvalidSof(0x67, 0x03, 0x03, 0x68))
    );
    assert_eq!(
        parse_frame_header(&[0x68, 0x03, 0x03, 0x00]),
        Err(FrameError::InvalidSof(0x68, 0x03, 0x03, 0x00))
    );
    assert_eq!(
        parse_frame_header(&[0x68, 0x03, 0x04, 0x68]),
        Err(FrameError::LengthMismatch(0x03, 0x04))
    );
}

#[test]
fn tail_is_checked() {
    assert_eq!(
        parse_frame_tail(3, &[0xA0, 0x04, 0x00, 0xA4, 0x0D]),
        Ok(vec![0xA0, 0x04, 0x00])
    );
    assert_eq!(
        parse_frame_tail(3, &[0xA0, 0x04, 0x00, 0xA4, 0x0E]),
        Err(FrameError::InvalidEof(0x0E))
    );
    assert_eq!(
        parse_frame_tail(3, &[0xA0, 0x04, 0x00, 0xA5, 0x0D]),
        Err(FrameError::ChecksumMismatch { expected: 0xA4, got: 0xA5 })
    );
    assert_eq!(parse_frame_tail(0, &[0x00, 0x0D]), Ok(vec![]));
}

#[test]
fn frame_roundtrip() {
    let data: Vec<u8> = (0u8..=250).collect();
    let frame = build_frame(0x60, 0x04, &data);
    let n = parse_frame_header(&frame[..4]).unwrap();
    assert_eq!(n, 253);
    let payload = parse_frame_tail(n, &frame[4..]).unwrap();
    let mut expected = vec![0x60, 0x04];
    expected.extend_from_slice(&data);
    assert_eq!(payload, expected);
}

#[test]
fn connect_target_trims_and_strips_scheme() {
    assert_eq!(connect_target("192.168.100.215:4196"), "192.168.100.215:4196");
    assert_eq!(connect_target("  tcp://192.168.100.215:4196\n"), "192.168.100.215:4196");
    assert_eq!(connect_target("tcp://tcp://host:1"), "host:1");
    assert_eq!(connect_target("TCP://host:1"), "TCP://host:1");
    assert_eq!(connect_target("host tcp://x"), "host tcp://x");
    assert_eq!(connect_target("tcp:/"), "tcp:/");
    assert_eq!(connect_target("   "), "");
}

#[test]
fn accepted_frame_is_the_frame_of_its_payload() {
    let frame = [0x68, 0x02, 0x02, 0x68, 0xFB, 0x04, 0xFF, 0x0D];
    let n = parse_frame_header(&frame[..4]).unwrap();
    let payload = parse_frame_tail(n, &frame[4..]).unwrap();
    assert_eq!(to_hex_payload(&payload), to_hex(&frame));
}
