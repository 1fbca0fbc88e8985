//! The IPv4 header: a fixed 20-byte header without options on the way out,
//! any header length on the way in.

use crate::buffer::{as_slice, be16, buf_bytes, from_be16, put_u16, put_u8, set_byte};
use crate::wire::checksum::{
    checksum_of, lemma_checksum_round_trip, ones_complement, with_word_at,
};
use vstd::array::axiom_array_ext_equal;
use vstd::slice::slice_subrange;
use bytes::BytesMut;
use vstd::prelude::*;

verus! {

/// An IPv4 address, in network byte order.
#[derive(Clone, Copy, Debug)]
pub struct Ipv4Addr(pub [u8; 4]);

/// What the engine chooses of an outbound IPv4 header.
#[derive(Clone, Copy, Debug)]
pub struct Ipv4Header {
    pub src: Ipv4Addr,
    pub dst: Ipv4Addr,
    pub proto: u8,
    pub ident: u16,
    pub ttl: u8,
}

/// The 20 header bytes of a frame that carries `payload_len` bytes, with
/// `checksum` in the checksum field.
pub open spec fn ipv4_header_bytes(h: Ipv4Header, payload_len: nat, checksum: u16) -> Seq<u8> {
    seq![0x45u8, 0u8] + be16(((20 + payload_len) % 0x1_0000) as u16) + be16(h.ident) + be16(
        0x4000,
    ) + seq![h.ttl, h.proto] + be16(checksum) + h.src.0@ + h.dst.0@
}

/// The frame that `h` and `payload` encode to: version 4, five header words,
/// don't-fragment set, the low 16 bits of the total length in the length
/// field, and the header's own checksum in the checksum field.
pub open spec fn ipv4_frame(h: Ipv4Header, payload: Seq<u8>) -> Seq<u8> {
    ipv4_header_bytes(h, payload.len(), checksum_of(ipv4_header_bytes(h, payload.len(), 0)))
        + payload
}

impl Ipv4Header {
    /// Builds the frame: the 20-byte header followed by `payload`.
    pub fn encode(&self, payload: &[u8]) -> (buf: BytesMut)
        requires
            payload@.len() + 20 <= isize::MAX,
        ensures
            buf_bytes(buf) == ipv4_frame(*self, payload@),
    {
        let total_len: u16 = ((20 + payload.len()) % 0x1_0000) as u16;
        let mut buf = BytesMut::with_capacity(total_len as usize);
        put_u8(&mut buf, 0x45);
        put_u8(&mut buf, 0);
        put_u16(&mut buf, total_len);
        put_u16(&mut buf, self.ident);
        put_u16(&mut buf, 0x4000);
        put_u8(&mut buf, self.ttl);
        put_u8(&mut buf, self.proto);
        put_u16(&mut buf, 0);
        buf.extend_from_slice(&self.src.0);
        buf.extend_from_slice(&self.dst.0);
        assert(buf_bytes(buf) =~= ipv4_header_bytes(*self, payload@.len(), 0));
        let cksum: u16 = ones_complement(as_slice(&buf));
        set_byte(&mut buf, 10, (cksum / 256) as u8);
        set_byte(&mut buf, 11, (cksum % 256) as u8);
        assert(buf_bytes(buf) =~= ipv4_header_bytes(*self, payload@.len(), cksum));
        buf.extend_from_slice(payload);
        buf
    }
}

/// What `parse_ipv4` reads out of a frame. `payload` borrows from the frame.
pub struct Ipv4View<'a> {
    pub src: [u8; 4],
    pub dst: [u8; 4],
    pub proto: u8,
    pub ihl_bytes: usize,
    pub payload: &'a [u8],
}

/// The header length that a frame declares, in bytes.
pub open spec fn ipv4_header_len(frame: Seq<u8>) -> int {
    (frame[0] % 16) * 4
}

/// The total length that a frame declares, in bytes.
pub open spec fn ipv4_total_len(frame: Seq<u8>) -> int {
    from_be16(frame[2], frame[3]) as int
}

/// Whether a frame parses: at least 20 bytes, version 4, a header of at least
/// 20 bytes that lies within the frame, and a total length that covers the
/// header and lies within the frame.
pub open spec fn ipv4_accepts(frame: Seq<u8>) -> bool {
    &&& frame.len() >= 20
    &&& frame[0] / 16 == 4
    &&& 20 <= ipv4_header_len(frame) <= frame.len()
    &&& ipv4_header_len(frame) <= ipv4_total_len(frame) <= frame.len()
}

/// The four bytes of a frame at `i`, as an address.
pub open spec fn addr_at(frame: Seq<u8>, i: int) -> [u8; 4] {
    [frame[i], frame[i + 1], frame[i + 2], frame[i + 3]]
}

/// The source address bytes of a frame.
pub open spec fn ipv4_src(frame: Seq<u8>) -> Seq<u8> {
    frame.subrange(12, 16)
}

/// The destination address bytes of a frame.
pub open spec fn ipv4_dst(frame: Seq<u8>) -> Seq<u8> {
    frame.subrange(16, 20)
}

/// The protocol number of a frame.
pub open spec fn ipv4_proto(frame: Seq<u8>) -> u8 {
    frame[9]
}

/// The bytes between the declared header length and the declared total length.
pub open spec fn ipv4_payload(frame: Seq<u8>) -> Seq<u8> {
    frame.subrange(ipv4_header_len(frame), ipv4_total_len(frame))
}

/// Whether the header of a frame that parses sums to checksum zero.
pub open spec fn ipv4_checksum_valid(frame: Seq<u8>) -> bool {
    ipv4_accepts(frame) && checksum_of(frame.take(ipv4_header_len(frame))) == 0
}

/// Reads an IPv4 frame. Returns `None` exactly for the frames that
/// `ipv4_accepts` rejects. The header checksum is not looked at: see
/// `verify_header_checksum`.
pub fn parse_ipv4(frame: &[u8]) -> (r: Option<Ipv4View<'_>>)
    ensures
        r is Some <==> ipv4_accepts(frame@),
        r matches Some(v) ==> {
            &&& v.src@ == ipv4_src(frame@)
            &&& v.dst@ == ipv4_dst(frame@)
            &&& v.src == addr_at(frame@, 12)
            &&& v.dst == addr_at(frame@, 16)
            &&& v.proto == ipv4_proto(frame@)
            &&& v.ihl_bytes == ipv4_header_len(frame@)
            &&& v.payload@ == ipv4_payload(frame@)
        },
{
    if frame.len() < 20 {
        return None;
    }
    let ver_ihl: u8 = frame[0];
    if ver_ihl / 16 != 4 {
        return None;
    }
    let ihl_bytes: usize = (ver_ihl % 16) as usize * 4;
    if ihl_bytes < 20 || frame.len() < ihl_bytes {
        return None;
    }
    let total_len: usize = (frame[2] as usize) * 256 + frame[3] as usize;
    if total_len > frame.len() || total_len < ihl_bytes {
        return None;
    }
    let proto: u8 = frame[9];
    let src: [u8; 4] = [frame[12], frame[13], frame[14], frame[15]];
    let dst: [u8; 4] = [frame[16], frame[17], frame[18], frame[19]];
    let payload = slice_subrange(frame, ihl_bytes, total_len);
    assert(src@ =~= ipv4_src(frame@));
    assert(dst@ =~= ipv4_dst(frame@));
    proof {
        assert(src@ =~= addr_at(frame@, 12)@);
        assert(dst@ =~= addr_at(frame@, 16)@);
        axiom_array_ext_equal(src, addr_at(frame@, 12));
        axiom_array_ext_equal(dst, addr_at(frame@, 16));
    }
    Some(Ipv4View { src, dst, proto, ihl_bytes, payload })
}

/// Whether a frame parses and its header sums to checksum zero.
pub fn verify_header_checksum(frame: &[u8]) -> (ok: bool)
    ensures
        ok == ipv4_checksum_valid(frame@),
{
    match parse_ipv4(frame) {
        None => false,
        Some(v) => ones_complement(slice_subrange(frame, 0, v.ihl_bytes)) == 0,
    }
}

/// Encoding and parsing round trip: a frame built from a payload of at most
/// 65515 bytes parses, gives back the source, the destination, the protocol
/// and the payload, and carries a valid header checksum.
pub proof fn lemma_ipv4_round_trip(h: Ipv4Header, payload: Seq<u8>)
    requires
        payload.len() <= 65515,
    ensures
        ipv4_accepts(ipv4_frame(h, payload)),
        ipv4_src(ipv4_frame(h, payload)) == h.src.0@,
        ipv4_dst(ipv4_frame(h, payload)) == h.dst.0@,
        addr_at(ipv4_frame(h, payload), 12) == h.src.0,
        addr_at(ipv4_frame(h, payload), 16) == h.dst.0,
        ipv4_proto(ipv4_frame(h, payload)) == h.proto,
        ipv4_header_len(ipv4_frame(h, payload)) == 20,
        ipv4_payload(ipv4_frame(h, payload)) == payload,
        ipv4_checksum_valid(ipv4_frame(h, payload)),
{
    let zeroed = ipv4_header_bytes(h, payload.len(), 0);
    let c = checksum_of(zeroed);
    let header = ipv4_header_bytes(h, payload.len(), c);
    let frame = ipv4_frame(h, payload);
    assert(h.src.0@.len() == 4 && h.dst.0@.len() == 4);
    assert(header.len() == 20 && zeroed.len() == 20);
    assert(frame.len() == 20 + payload.len());
    assert(frame[0] == 0x45 && frame[2] == ((20 + payload.len()) / 256) as u8 && frame[3] == ((20
        + payload.len()) % 256) as u8 && frame[9] == h.proto);
    assert(ipv4_total_len(frame) == 20 + payload.len());
    assert(ipv4_src(frame) =~= h.src.0@);
    assert(ipv4_dst(frame) =~= h.dst.0@);
    assert(ipv4_payload(frame) =~= payload);
    assert(frame.take(20) =~= header);
    assert(header =~= with_word_at(zeroed, 10, c));
    lemma_checksum_round_trip(zeroed, 10);
    assert(addr_at(frame, 12)@ =~= h.src.0@);
    assert(addr_at(frame, 16)@ =~= h.dst.0@);
    axiom_array_ext_equal(addr_at(frame, 12), h.src.0);
    axiom_array_ext_equal(addr_at(frame, 16), h.dst.0);
}

} // verus!
