use gdvpn_server::frame::{
    decode_batch, encode_frame, encode_notification, encode_slot_list, parse_frame_header,
    serialize_batch, UplinkHeader, MTU,
};

#[test]
fn frame_empty_packet() {
    let r = encode_frame(&vec![]);
    assert_eq!(r, vec![0u8, 0u8]);
}

#[test]
fn frame_small_packet() {
    let r = encode_frame(&vec![1u8, 2, 3]);
    assert_eq!(r, vec![0u8, 3, 1, 2, 3]);
}

#[test]
fn frame_mtu_packet_header() {
    let p = vec![7u8; MTU];
    let r = encode_frame(&p);
    // 1500 = 5 * 256 + 220
    assert_eq!(r[0], 5);
    assert_eq!(r[1], 220);
    assert_eq!(r.len(), MTU + 2);
    assert_eq!(&r[2..], &p[..]);
}

#[test]
fn frame_round_trip_sizes() {
    for n in [0usize, 1, 2, 255, 256, 257, 1024, MTU - 1, MTU] {
        let p: Vec<u8> = (0..n).map(|i| (i % 251) as u8).collect();
        let encoded = encode_frame(&p);
        let decoded = decode_batch(&encoded).expect("a single frame must decode");
        assert_eq!(decoded, vec![p]);
    }
}

#[test]
fn batch_exact_bytes() {
    let batch = vec![vec![10u8], vec![20u8, 30u8]];
    let r = serialize_batch(&batch);
    assert_eq!(r, vec![0u8, 1, 10, 0, 2, 20, 30]);
}

#[test]
fn batch_round_trip() {
    let batch = vec![vec![1u8, 2, 3], vec![], vec![9u8; 300]];
    let bytes = serialize_batch(&batch);
    assert_eq!(decode_batch(&bytes), Some(batch));
}

#[test]
fn decode_empty_stream() {
    assert_eq!(decode_batch(&vec![]), Some(vec![]));
}

#[test]
fn decode_truncated_header() {
    assert_eq!(decode_batch(&vec![0u8]), None);
}

#[test]
fn decode_truncated_payload() {
    assert_eq!(decode_batch(&vec![0u8, 5, 1, 2]), None);
}

#[test]
fn decode_negative_length() {
    assert_eq!(decode_batch(&vec![0x80u8, 0, 1]), None);
}

#[test]
fn header_shutdown_on_zero() {
    assert_eq!(parse_frame_header(0, 0), UplinkHeader::Shutdown);
}

#[test]
fn header_packet_length() {
    assert_eq!(parse_frame_header(0, 5), UplinkHeader::Packet { len: 5 });
    assert_eq!(parse_frame_header(5, 220), UplinkHeader::Packet { len: 1500 });
}

#[test]
fn header_negative_is_malformed() {
    assert_eq!(parse_frame_header(0x80, 0), UplinkHeader::Malformed);
    assert_eq!(parse_frame_header(0xFF, 0xFF), UplinkHeader::Malformed);
}

#[test]
fn notification_bytes() {
    assert_eq!(encode_notification(0), vec![0u8, 0]);
    assert_eq!(encode_notification(3), vec![0u8, 3]);
    assert_eq!(encode_notification(258), vec![1u8, 2]);
    assert_eq!(encode_notification(0xFFFF), vec![255u8, 255]);
}

#[test]
fn slot_list_handshake_bytes() {
    let ids = vec![b"abc".to_vec(), b"de".to_vec()];
    let r = encode_slot_list(&ids);
    let joined = b"abc\nde";
    let mut expected = (joined.len() as i32).to_be_bytes().to_vec();
    expected.extend_from_slice(joined);
    assert_eq!(r, expected);
}

#[test]
fn slot_list_single_id_has_no_separator() {
    let ids = vec![b"only".to_vec()];
    let r = encode_slot_list(&ids);
    assert_eq!(r, vec![0u8, 0, 0, 4, b'o', b'n', b'l', b'y']);
}

#[test]
fn slot_list_empty() {
    let r = encode_slot_list(&vec![]);
    assert_eq!(r, vec![0u8, 0, 0, 0]);
}
