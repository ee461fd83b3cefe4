use engineio_payload::encoder::{
    require_packet, v3_bin_frame_decoder, v3_bin_packet_encoder, v3_binary_encoder,
    v3_string_encoder, v3_string_packet_encoder, v4_encoder, PACKET_SEPARATOR_V3,
    PACKET_SEPARATOR_V4,
};
use engineio_payload::packet::{Error, Packet};

#[test]
fn v4_two_text_packets_joined_with_separator() {
    let packets = vec![Packet::Text("hi".to_string()), Packet::Text("yo".to_string())];
    let out = v4_encoder(packets).unwrap();
    assert_eq!(out, vec![0x68, 0x69, PACKET_SEPARATOR_V4, 0x79, 0x6f]);
}

#[test]
fn v4_single_packet_has_no_separator() {
    let out = v4_encoder(vec![Packet::Text("hi".to_string())]).unwrap();
    assert_eq!(out, b"hi".to_vec());
}

#[test]
fn v4_empty_batch_gives_empty_payload() {
    let out = v4_encoder(vec![]).unwrap();
    assert_eq!(out, Vec::<u8>::new());
}

#[test]
fn v4_binary_packet_rendered_as_hex_text() {
    let out = v4_encoder(vec![Packet::Binary(vec![0xab, 0x01])]).unwrap();
    assert_eq!(out, b"bab01".to_vec());
}

#[test]
fn v4_control_packets_render_as_tags() {
    let packets = vec![
        Packet::Open("abc".to_string()),
        Packet::Close,
        Packet::Ping,
        Packet::Pong,
        Packet::Upgrade,
        Packet::Noop,
    ];
    let out = v4_encoder(packets).unwrap();
    assert_eq!(out, b"0abc\x1e1\x1e2\x1e3\x1e5\x1e6".to_vec());
}

#[test]
fn legacy_mixed_batch_becomes_binary_frames() {
    let packets = vec![Packet::Text("hi".to_string()), Packet::Binary(vec![0x01, 0x02])];
    let out = v3_binary_encoder(packets).unwrap();
    assert_eq!(
        out,
        vec![0x00, 0x02, 0xff, 0x68, 0x69, 0x01, 0x03, 0xff, 0x04, 0x01, 0x02]
    );
}

#[test]
fn legacy_text_only_batch_becomes_string_frames() {
    let packets = vec![Packet::Text("hi".to_string()), Packet::Text("yo".to_string())];
    let out = v3_binary_encoder(packets).unwrap();
    assert_eq!(out, b"2:hi2:yo".to_vec());
}

#[test]
fn legacy_string_encoder_frames_every_packet() {
    let packets = vec![Packet::Text("hi".to_string()), Packet::Ping];
    let out = v3_string_encoder(packets).unwrap();
    assert_eq!(out, b"2:hi1:2".to_vec());
}

#[test]
fn string_frame_counts_unicode_scalars_not_bytes() {
    let mut data: Vec<u8> = Vec::new();
    v3_string_packet_encoder(Packet::Text("h\u{e9}llo".to_string()), &mut data).unwrap();
    assert_eq!(data, vec![0x35, 0x3a, 0x68, 0xc3, 0xa9, 0x6c, 0x6c, 0x6f]);
}

#[test]
fn string_frame_of_empty_text() {
    let mut data: Vec<u8> = Vec::new();
    v3_string_packet_encoder(Packet::Text(String::new()), &mut data).unwrap();
    assert_eq!(data, vec![0x30, PACKET_SEPARATOR_V3]);
}

#[test]
fn bin_frame_length_is_minimal_width_big_endian() {
    let mut data: Vec<u8> = Vec::new();
    let payload = vec![0x05u8; 300];
    v3_bin_packet_encoder(Packet::LegacyBinary(payload.clone()), &mut data).unwrap();
    let mut expected = vec![0x01, 0x01, 0x2d, 0xff, 0x04];
    expected.extend_from_slice(&payload);
    assert_eq!(data, expected);
}

#[test]
fn bin_frame_of_empty_text_has_empty_length_field() {
    let mut data: Vec<u8> = Vec::new();
    v3_bin_packet_encoder(Packet::Text(String::new()), &mut data).unwrap();
    assert_eq!(data, vec![0x00, 0xff]);
}

#[test]
fn bin_frame_appends_behind_existing_bytes() {
    let mut data: Vec<u8> = vec![0xaa];
    v3_bin_packet_encoder(Packet::Text("hi".to_string()), &mut data).unwrap();
    assert_eq!(data, vec![0xaa, 0x00, 0x02, 0xff, 0x68, 0x69]);
}

#[test]
fn decoding_a_binary_frame_recovers_the_bytes() {
    let mut data: Vec<u8> = Vec::new();
    v3_bin_packet_encoder(Packet::Binary(vec![0x01, 0x02]), &mut data).unwrap();
    let (is_binary, content) = v3_bin_frame_decoder(&data).unwrap();
    assert!(is_binary);
    assert_eq!(content, vec![0x01, 0x02]);
}

#[test]
fn decoding_a_string_frame_recovers_the_text() {
    let mut data: Vec<u8> = Vec::new();
    v3_bin_packet_encoder(Packet::Text("hi".to_string()), &mut data).unwrap();
    let (is_binary, content) = v3_bin_frame_decoder(&data).unwrap();
    assert!(!is_binary);
    assert_eq!(content, b"hi".to_vec());
}

#[test]
fn decoder_rejects_malformed_frames() {
    assert!(v3_bin_frame_decoder(&vec![]).is_none());
    assert!(v3_bin_frame_decoder(&vec![0x05, 0xff, 0x61]).is_none());
    assert!(v3_bin_frame_decoder(&vec![0x00, 0x02, 0x68, 0x69]).is_none());
    assert!(v3_bin_frame_decoder(&vec![0x01, 0x01, 0xff, 0x99]).is_none());
}

#[test]
fn require_packet_passes_a_packet_through() {
    let r = require_packet(Some(Packet::Text("hi".to_string())));
    match r.unwrap() {
        Packet::Text(s) => assert_eq!(s, "hi"),
        _ => panic!("wrong packet"),
    }
}

#[test]
fn require_packet_maps_closure_to_aborted() {
    let r = require_packet(None);
    assert_eq!(r.unwrap_err(), Error::Aborted);
}

#[test]
fn to_text_of_each_packet_kind() {
    assert_eq!(Packet::Open("abc".to_string()).to_text().unwrap(), "0abc");
    assert_eq!(Packet::Close.to_text().unwrap(), "1");
    assert_eq!(Packet::Ping.to_text().unwrap(), "2");
    assert_eq!(Packet::Pong.to_text().unwrap(), "3");
    assert_eq!(Packet::Text("hi".to_string()).to_text().unwrap(), "hi");
    assert_eq!(Packet::Upgrade.to_text().unwrap(), "5");
    assert_eq!(Packet::Noop.to_text().unwrap(), "6");
    assert_eq!(Packet::Binary(vec![0x00, 0xff]).to_text().unwrap(), "b00ff");
    assert_eq!(Packet::LegacyBinary(vec![0x1a]).to_text().unwrap(), "b1a");
}

#[test]
fn is_binary_marks_both_binary_kinds() {
    assert!(Packet::Binary(vec![]).is_binary());
    assert!(Packet::LegacyBinary(vec![]).is_binary());
    assert!(!Packet::Text("hi".to_string()).is_binary());
    assert!(!Packet::Ping.is_binary());
}
