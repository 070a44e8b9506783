use wsrelay::constants::{PacketType, HEADER_SIZE, MY_PEER_ID};
use wsrelay::crypto::{packet_key, wrap_packet, wrap_server_packet, WsCrypto};
use wsrelay::handlers::{handle_ping, handshake_packet};
use wsrelay::packet::{create_header, create_server_header, frame_packet, parse_header, PacketHeader};

#[test]
fn header_bytes_are_little_endian() {
    let h = PacketHeader {
        from_peer_id: 0x04030201,
        to_peer_id: 0x08070605,
        packet_type: 9,
        flags: 10,
        forward_counter: 11,
        reserved: 12,
        len: 0x100f0e0d,
    };
    assert_eq!(
        h.to_bytes(),
        vec![1, 2, 3, 4, 5, 6, 7, 8, 9, 10, 11, 12, 13, 14, 15, 16]
    );
}

#[test]
fn header_is_read_back() {
    let h = PacketHeader {
        from_peer_id: 4_000_000_000,
        to_peer_id: 7,
        packet_type: 8,
        flags: 1,
        forward_counter: 255,
        reserved: 3,
        len: 70_000,
    };
    let mut bytes = h.to_bytes();
    assert_eq!(bytes.len(), HEADER_SIZE);
    bytes.extend_from_slice(b"payload");
    assert_eq!(PacketHeader::from_bytes(&bytes), Some(h));
    assert_eq!(parse_header(&bytes), Some(h));
}

#[test]
fn short_buffers_have_no_header() {
    assert_eq!(parse_header(&[]), None);
    assert_eq!(parse_header(&[0u8; 15]), None);
    assert!(parse_header(&[0u8; 16]).is_some());
}

#[test]
fn fresh_headers_have_no_flags_and_one_hop() {
    let bytes = create_header(1, 2, PacketType::Data, 3);
    assert_eq!(bytes, vec![1, 0, 0, 0, 2, 0, 0, 0, 1, 0, 1, 0, 3, 0, 0, 0]);
    let server = create_server_header(2, PacketType::Pong, 0);
    let h = parse_header(&server).unwrap();
    assert_eq!(h.from_peer_id, MY_PEER_ID);
    assert_eq!(h.packet_type_enum(), PacketType::Pong);
}

#[test]
fn packet_types_survive_their_number() {
    for v in 0..=255u8 {
        let t = PacketType::from_u8(v);
        if (1..=17).contains(&v) || v == 20 || v == 21 {
            assert_eq!(t.to_u8(), v);
        } else {
            assert_eq!(t, PacketType::Invalid);
        }
    }
}

#[test]
fn ping_is_answered_with_its_payload() {
    let pong = handle_ping(77, b"abc");
    let h = parse_header(&pong).unwrap();
    assert_eq!(h.from_peer_id, MY_PEER_ID);
    assert_eq!(h.to_peer_id, 77);
    assert_eq!(h.packet_type_enum(), PacketType::Pong);
    assert_eq!(h.len, 3);
    assert_eq!(&pong[HEADER_SIZE..], b"abc");
}

#[test]
fn handshake_answers_are_framed() {
    let packet = handshake_packet(5, &[9, 8]);
    assert_eq!(packet, frame_packet(MY_PEER_ID, 5, PacketType::HandShake, &[9, 8]));
}

#[test]
fn plain_packets_are_wrapped_as_frames() {
    let crypto = WsCrypto::default();
    assert!(packet_key(PacketType::RpcReq, &crypto).is_none());
    let packet = wrap_packet(1, 2, PacketType::RpcReq, b"hi", Err("unused".to_string()), &crypto).unwrap();
    assert_eq!(packet, frame_packet(1, 2, PacketType::RpcReq, b"hi"));
}

#[test]
fn covered_packets_carry_the_sealed_body() {
    let crypto = WsCrypto { enabled: true, key128: vec![1; 16], key256: vec![2; 32] };
    assert_eq!(packet_key(PacketType::Data, &crypto), Some(&vec![1u8; 16]));
    let packet =
        wrap_server_packet(2, PacketType::Data, b"hi", Ok(vec![7, 7, 7]), &crypto).unwrap();
    let h = parse_header(&packet).unwrap();
    assert_eq!(h.from_peer_id, MY_PEER_ID);
    assert_eq!(h.flags, 1);
    assert_eq!(h.len, 3);
    assert_eq!(&packet[HEADER_SIZE..], &[7, 7, 7]);
}

#[test]
fn failed_encryption_is_never_sent_in_the_clear() {
    let crypto = WsCrypto { enabled: true, key128: Vec::new(), key256: vec![2; 32] };
    assert_eq!(packet_key(PacketType::Data, &crypto), Some(&vec![2u8; 32]));
    let r = wrap_packet(1, 2, PacketType::Data, b"hi", Err("encrypt: no".to_string()), &crypto);
    assert_eq!(r, Err("encrypt: no".to_string()));
}

#[test]
fn handshakes_are_never_encrypted() {
    let crypto = WsCrypto { enabled: true, key128: vec![1; 16], key256: Vec::new() };
    assert!(packet_key(PacketType::HandShake, &crypto).is_none());
    let packet =
        wrap_packet(1, 2, PacketType::HandShake, b"hi", Ok(vec![0]), &crypto).unwrap();
    assert_eq!(packet, frame_packet(1, 2, PacketType::HandShake, b"hi"));
}

#[test]
fn enabled_encryption_without_keys_only_marks_packets() {
    let crypto = WsCrypto { enabled: true, key128: Vec::new(), key256: Vec::new() };
    let packet =
        wrap_packet(1, 2, PacketType::Data, b"hi", Err("unused".to_string()), &crypto).unwrap();
    let h = parse_header(&packet).unwrap();
    assert_eq!(h.flags, 1);
    assert_eq!(&packet[HEADER_SIZE..], b"hi");
}
