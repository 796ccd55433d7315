use game::protocol::{bytes_eq, datagram_length_ok, frame_message, frame_payload_length, tcp, udp, Nonce, PositionBits, Token};

#[test]
fn ports_and_limits() {
    assert_eq!(tcp::PORT, 10079);
    assert_eq!(udp::PORT, 10089);
    assert_eq!(tcp::MAX_SERVER_LEN, 512);
    assert_eq!(tcp::MAX_CLIENT_LEN, 512);
    assert_eq!(udp::MAX_SERVER_LEN, 512);
    assert_eq!(udp::MAX_CLIENT_LEN, 512);
}

#[test]
fn frame_puts_big_endian_length_first() {
    assert_eq!(frame_message(b"abc", 512), Some(vec![0, 3, b'a', b'b', b'c']));
    let long = vec![7u8; 300];
    let f = frame_message(&long, 512).unwrap();
    assert_eq!(f.len(), 302);
    assert_eq!(&f[..2], &[1, 44]);
    assert_eq!(&f[2..], &long[..]);
}

#[test]
fn frame_refuses_empty_and_long_payloads() {
    assert_eq!(frame_message(b"", 512), None);
    assert_eq!(frame_message(&vec![0u8; 513], 512), None);
    assert!(frame_message(&vec![0u8; 512], 512).is_some());
}

#[test]
fn frame_header_roundtrip() {
    let payload = vec![9u8; 258];
    let f = frame_message(&payload, 512).unwrap();
    assert_eq!(frame_payload_length([f[0], f[1]], 512), Some(258));
}

#[test]
fn payload_length_bounds() {
    assert_eq!(frame_payload_length([1, 2], 512), Some(258));
    assert_eq!(frame_payload_length([0, 0], 512), None);
    assert_eq!(frame_payload_length([2, 0], 512), Some(512));
    assert_eq!(frame_payload_length([2, 1], 512), None);
    assert_eq!(frame_payload_length([255, 255], 512), None);
}

#[test]
fn datagram_lengths() {
    assert!(!datagram_length_ok(0, 512));
    assert!(datagram_length_ok(1, 512));
    assert!(datagram_length_ok(512, 512));
    assert!(!datagram_length_ok(513, 512));
}

#[test]
fn tokens_and_nonces_compare_by_bytes() {
    let a = Token([1; 32]);
    let mut bytes = [1u8; 32];
    assert!(a.same(&Token(bytes)));
    bytes[31] = 2;
    assert!(!a.same(&Token(bytes)));
    assert!(Nonce([3; 16]).same(&Nonce([3; 16])));
    assert!(!Nonce([3; 16]).same(&Nonce([4; 16])));
    assert!(bytes_eq(&[1u8, 2, 3], &[1u8, 2, 3]));
    assert!(!bytes_eq(&[1u8, 2, 3], &[1u8, 2, 4]));
}

#[test]
fn origin_is_zero() {
    assert_eq!(PositionBits::origin(), PositionBits([0, 0]));
    assert_eq!(f32::from_bits(PositionBits::origin().0[0]), 0.0);
}
