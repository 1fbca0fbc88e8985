use bytes::BytesMut;
use urtcp::wire::checksum::ones_complement;
use urtcp::wire::tcp::{
    parse, verify_checksum, TcpHeader, FLAG_ACK, FLAG_FIN, FLAG_PSH, FLAG_RST, FLAG_SYN,
};

const SRC: [u8; 4] = [10, 0, 0, 1];
const DST: [u8; 4] = [10, 0, 0, 2];

fn reference_checksum(seg: &[u8], src: [u8; 4], dst: [u8; 4]) -> u16 {
    let mut pseudo = Vec::new();
    pseudo.extend_from_slice(&src);
    pseudo.extend_from_slice(&dst);
    pseudo.push(0);
    pseudo.push(6);
    pseudo.extend_from_slice(&(seg.len() as u16).to_be_bytes());
    pseudo.extend_from_slice(seg);
    let mut sum: u64 = 0;
    let mut i = 0;
    while i + 1 < pseudo.len() {
        sum += u16::from_be_bytes([pseudo[i], pseudo[i + 1]]) as u64;
        i += 2;
    }
    if i < pseudo.len() {
        sum += (pseudo[i] as u64) << 8;
    }
    while sum >> 16 != 0 {
        sum = (sum & 0xffff) + (sum >> 16);
    }
    !(sum as u16)
}

#[test]
fn flag_values() {
    assert_eq!(FLAG_FIN, 0x01);
    assert_eq!(FLAG_SYN, 0x02);
    assert_eq!(FLAG_RST, 0x04);
    assert_eq!(FLAG_PSH, 0x08);
    assert_eq!(FLAG_ACK, 0x10);
}

#[test]
fn tcp_encode_layout() {
    let h = TcpHeader::new(50_000, 80, 0x0102_0304, 0x0a0b_0c0d, FLAG_SYN | FLAG_ACK, 0x2000);
    let seg = h.encode(&[0xde, 0xad], SRC, DST);
    assert_eq!(seg.len(), 22);
    assert_eq!(&seg[0..2], &[0xc3, 0x50]);
    assert_eq!(&seg[2..4], &[0x00, 0x50]);
    assert_eq!(&seg[4..8], &[0x01, 0x02, 0x03, 0x04]);
    assert_eq!(&seg[8..12], &[0x0a, 0x0b, 0x0c, 0x0d]);
    assert_eq!(&seg[12..14], &[0x50, 0x12]);
    assert_eq!(&seg[14..16], &[0x20, 0x00]);
    assert_eq!(&seg[18..20], &[0x00, 0x00]);
    assert_eq!(&seg[20..], &[0xde, 0xad]);
    let mut zeroed = seg.to_vec();
    zeroed[16] = 0;
    zeroed[17] = 0;
    let expected = reference_checksum(&zeroed, SRC, DST);
    assert_eq!(&seg[16..18], &expected.to_be_bytes());
}

#[test]
fn encode_writes_options_between_header_and_payload() {
    let mut h = TcpHeader::new(1, 2, 3, 4, FLAG_ACK, 5);
    h.data_offset = 6;
    h.urg_ptr = 0x0708;
    h.options = BytesMut::from(&[2u8, 4, 5, 0xb4][..]);
    let seg = h.encode(&[0x55], SRC, DST);
    assert_eq!(seg.len(), 25);
    assert_eq!(seg[12], 0x60);
    assert_eq!(&seg[18..20], &[0x07, 0x08]);
    assert_eq!(&seg[20..24], &[2, 4, 5, 0xb4]);
    assert_eq!(seg[24], 0x55);
    assert!(verify_checksum(&seg, SRC, DST));
    let view = parse(&seg).expect("segment parses");
    assert_eq!(view.data_offset_words, 6);
    assert_eq!(view.payload, &[0x55]);
    assert_eq!(view.urg_ptr, 0x0708);
}

#[test]
fn encode_keeps_nine_flag_bits_and_four_offset_bits() {
    let mut h = TcpHeader::new(1, 2, 3, 4, 0xffff, 5);
    h.data_offset = 0x15;
    let seg = h.encode(&[], SRC, DST);
    assert_eq!(&seg[12..14], &[0x51, 0xff]);
}

#[test]
fn tcp_round_trip() {
    for len in [0usize, 1, 2, 3, 100, 1460] {
        let payload: Vec<u8> = (0..len).map(|i| (i * 13 + 1) as u8).collect();
        let h = TcpHeader::new(
            40_000,
            443,
            0xffff_fff0,
            0x8000_0001,
            FLAG_PSH | FLAG_ACK,
            0xfffe,
        );
        let seg = h.encode(&payload, SRC, DST);
        let view = parse(&seg).expect("segment parses");
        assert_eq!(view.src_port, 40_000);
        assert_eq!(view.dst_port, 443);
        assert_eq!(view.seq, 0xffff_fff0);
        assert_eq!(view.ack, 0x8000_0001);
        assert_eq!(view.data_offset_words, 5);
        assert_eq!(view.flags, FLAG_PSH | FLAG_ACK);
        assert_eq!(view.window, 0xfffe);
        assert_eq!(view.urg_ptr, 0);
        assert_eq!(view.checksum, u16::from_be_bytes([seg[16], seg[17]]));
        assert_eq!(view.payload, &payload[..]);
        assert!(verify_checksum(&seg, SRC, DST));
    }
}

#[test]
fn cloned_header_encodes_alike() {
    let mut h = TcpHeader::new(1, 2, 3, 4, FLAG_ACK, 5);
    h.data_offset = 6;
    h.options = BytesMut::from(&[1u8, 1, 1, 0][..]);
    let copy = h.clone();
    assert_eq!(&h.encode(&[7], SRC, DST)[..], &copy.encode(&[7], SRC, DST)[..]);
}

#[test]
fn default_header_is_all_zero() {
    let h = TcpHeader::default();
    assert_eq!(h.src_port, 0);
    assert_eq!(h.dst_port, 0);
    assert_eq!(h.seq, 0);
    assert_eq!(h.ack, 0);
    assert_eq!(h.data_offset, 0);
    assert_eq!(h.flags, 0);
    assert_eq!(h.window, 0);
    assert_eq!(h.urg_ptr, 0);
    assert!(h.options.is_empty());
}

#[test]
fn parse_rejects_short_segments() {
    let seg = TcpHeader::new(1, 2, 3, 4, FLAG_ACK, 5).encode(&[], SRC, DST);
    for len in 0..20 {
        assert!(parse(&seg[..len]).is_none(), "length {}", len);
    }
}

#[test]
fn parse_rejects_bad_data_offset() {
    let mut seg = TcpHeader::new(1, 2, 3, 4, FLAG_ACK, 5).encode(&[1, 2, 3], SRC, DST).to_vec();
    seg[12] = 0x40;
    assert!(parse(&seg).is_none());
    // 6 words = 24 bytes: more than the 23 bytes of the segment.
    seg[12] = 0x60;
    assert!(parse(&seg).is_none());
    seg.push(0);
    let view = parse(&seg).expect("segment parses");
    assert_eq!(view.payload.len(), 0);
}

#[test]
fn verify_rejects_what_does_not_parse() {
    assert!(!verify_checksum(&[0u8; 19], SRC, DST));
    let mut seg = TcpHeader::new(1, 2, 3, 4, FLAG_ACK, 5).encode(&[], SRC, DST).to_vec();
    seg[12] = 0x40;
    assert!(!verify_checksum(&seg, SRC, DST));
}

#[test]
fn verify_depends_on_the_addresses() {
    let seg = TcpHeader::new(1, 2, 3, 4, FLAG_ACK, 5).encode(&[1, 2, 3], SRC, DST);
    assert!(verify_checksum(&seg, SRC, DST));
    assert!(!verify_checksum(&seg, SRC, [10, 0, 0, 3]));
    assert!(!verify_checksum(&seg, [10, 0, 1, 1], DST));
}

#[test]
fn any_single_bit_flip_is_detected() {
    for payload in [&[][..], &[0x00][..], &[0xff, 0xff, 0xff][..], &[1, 2, 3, 4, 5, 6][..]] {
        let seg = TcpHeader::new(50_000, 80, 7, 9, FLAG_PSH | FLAG_ACK, 1000)
            .encode(payload, SRC, DST);
        for byte in 0..seg.len() {
            for bit in 0..8 {
                let mut bad = seg.to_vec();
                bad[byte] ^= 1 << bit;
                assert!(!verify_checksum(&bad, SRC, DST), "byte {} bit {}", byte, bit);
            }
        }
    }
}

#[test]
fn authentic_segment_sums_to_zero_with_pseudo_header() {
    let seg = TcpHeader::new(1, 2, 3, 4, FLAG_SYN, 5).encode(&[0xaa], SRC, DST);
    let mut pseudo = Vec::new();
    pseudo.extend_from_slice(&SRC);
    pseudo.extend_from_slice(&DST);
    pseudo.extend_from_slice(&[0, 6, 0, 21]);
    pseudo.extend_from_slice(&seg);
    assert_eq!(ones_complement(&pseudo), 0);
}
