use urtcp::wire::checksum::ones_complement;
use urtcp::wire::ipv4::{parse_ipv4, verify_header_checksum, Ipv4Addr, Ipv4Header};

fn header() -> Ipv4Header {
    Ipv4Header {
        src: Ipv4Addr([192, 168, 0, 1]),
        dst: Ipv4Addr([192, 168, 0, 199]),
        proto: 17,
        ident: 0,
        ttl: 64,
    }
}

#[test]
fn encode_known_header() {
    let payload = vec![0xabu8; 0x73 - 20];
    let frame = header().encode(&payload);
    let expected_header = [
        0x45, 0x00, 0x00, 0x73, 0x00, 0x00, 0x40, 0x00, 0x40, 0x11, 0xb8, 0x61, 0xc0, 0xa8, 0x00,
        0x01, 0xc0, 0xa8, 0x00, 0xc7,
    ];
    assert_eq!(&frame[..20], &expected_header[..]);
    assert_eq!(&frame[20..], &payload[..]);
    assert_eq!(frame.len(), 0x73);
}

#[test]
fn encode_empty_payload() {
    let h = Ipv4Header {
        src: Ipv4Addr([10, 0, 0, 1]),
        dst: Ipv4Addr([10, 0, 0, 2]),
        proto: 6,
        ident: 0x1234,
        ttl: 7,
    };
    let frame = h.encode(&[]);
    assert_eq!(frame.len(), 20);
    assert_eq!(frame[0], 0x45);
    assert_eq!(frame[1], 0);
    assert_eq!(&frame[2..4], &[0x00, 0x14]);
    assert_eq!(&frame[4..6], &[0x12, 0x34]);
    assert_eq!(&frame[6..8], &[0x40, 0x00]);
    assert_eq!(frame[8], 7);
    assert_eq!(frame[9], 6);
    assert_eq!(&frame[12..16], &[10, 0, 0, 1]);
    assert_eq!(&frame[16..20], &[10, 0, 0, 2]);
    assert_eq!(ones_complement(&frame[..20]), 0);
}

#[test]
fn ipv4_round_trip() {
    for len in [0usize, 1, 2, 19, 20, 21, 1460, 65_515] {
        let payload: Vec<u8> = (0..len).map(|i| (i * 7 + 3) as u8).collect();
        let frame = header().encode(&payload);
        let view = parse_ipv4(&frame).expect("frame parses");
        assert_eq!(view.src, [192, 168, 0, 1]);
        assert_eq!(view.dst, [192, 168, 0, 199]);
        assert_eq!(view.proto, 17);
        assert_eq!(view.ihl_bytes, 20);
        assert_eq!(view.payload, &payload[..]);
        assert!(verify_header_checksum(&frame));
    }
}

#[test]
fn total_length_holds_the_low_16_bits() {
    let payload = vec![0u8; 65_516];
    let frame = header().encode(&payload);
    assert_eq!(frame.len(), 65_536);
    assert_eq!(&frame[2..4], &[0x00, 0x00]);
    assert!(parse_ipv4(&frame).is_none());
}

#[test]
fn parse_rejects_short_frames() {
    let frame = header().encode(&[]);
    for len in 0..20 {
        assert!(parse_ipv4(&frame[..len]).is_none(), "length {}", len);
    }
    assert!(parse_ipv4(&frame[..20]).is_some());
}

#[test]
fn parse_rejects_other_versions() {
    let mut frame = header().encode(&[1, 2, 3]).to_vec();
    frame[0] = 0x65;
    assert!(parse_ipv4(&frame).is_none());
    frame[0] = 0x05;
    assert!(parse_ipv4(&frame).is_none());
}

#[test]
fn parse_rejects_bad_header_length() {
    let mut frame = header().encode(&[1, 2, 3]).to_vec();
    frame[0] = 0x44;
    assert!(parse_ipv4(&frame).is_none());
    // 6 words = 24 bytes: more than the 23 bytes of the frame.
    frame[0] = 0x46;
    assert!(parse_ipv4(&frame).is_none());
}

#[test]
fn parse_rejects_total_length_beyond_frame() {
    let mut frame = header().encode(&[1, 2, 3]).to_vec();
    frame[3] = 24;
    assert!(parse_ipv4(&frame).is_none());
}

#[test]
fn parse_rejects_total_length_below_header() {
    let mut frame = header().encode(&[1, 2, 3]).to_vec();
    frame[3] = 19;
    assert!(parse_ipv4(&frame).is_none());
}

#[test]
fn parse_skips_options_and_trailing_bytes() {
    // 6 header words, total length 26, two bytes of padding behind.
    let mut frame = vec![0u8; 28];
    frame[0] = 0x46;
    frame[3] = 26;
    frame[9] = 6;
    frame[12..16].copy_from_slice(&[1, 2, 3, 4]);
    frame[16..20].copy_from_slice(&[5, 6, 7, 8]);
    frame[24] = 0xaa;
    frame[25] = 0xbb;
    let view = parse_ipv4(&frame).expect("frame parses");
    assert_eq!(view.ihl_bytes, 24);
    assert_eq!(view.payload, &[0xaa, 0xbb]);
    assert_eq!(view.src, [1, 2, 3, 4]);
    assert_eq!(view.dst, [5, 6, 7, 8]);
    assert_eq!(view.proto, 6);
}

#[test]
fn parse_does_not_check_the_checksum() {
    let mut frame = header().encode(&[9, 9]).to_vec();
    frame[10] ^= 0xff;
    assert!(parse_ipv4(&frame).is_some());
    assert!(!verify_header_checksum(&frame));
}

#[test]
fn header_checksum_fails_on_frames_that_do_not_parse() {
    assert!(!verify_header_checksum(&[0x45, 0, 0, 20]));
}
