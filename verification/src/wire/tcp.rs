//! The TCP header: the fixed 20 bytes, options carried through as bytes, and
//! the checksum over the IPv4 pseudo-header.

use crate::buffer::{
    as_slice, be16, be32, buf_bytes, from_be16, from_be32, lemma_be16_round_trip,
    lemma_be32_round_trip, put_u16, put_u32, put_u8, set_byte,
};
use crate::wire::checksum::{
    byte_weight, checksum_of, lemma_checksum_round_trip, lemma_checksum_zero_iff,
    lemma_word_sum_update, ones_complement, with_word_at, word_sum,
};
use vstd::arithmetic::div_mod::lemma_fundamental_div_mod;
use bytes::BytesMut;
use vstd::prelude::*;
use vstd::slice::slice_subrange;

verus! {

pub const FLAG_FIN: u16 = 0x01;

pub const FLAG_SYN: u16 = 0x02;

pub const FLAG_RST: u16 = 0x04;

pub const FLAG_PSH: u16 = 0x08;

pub const FLAG_ACK: u16 = 0x10;

/// An outbound TCP header. `data_offset` counts 32-bit words; `flags` holds
/// the nine flag bits; `options` is written out as it is.
#[derive(Debug)]
pub struct TcpHeader {
    pub src_port: u16,
    pub dst_port: u16,
    pub seq: u32,
    pub ack: u32,
    pub data_offset: u8,
    pub flags: u16,
    pub window: u16,
    pub urg_ptr: u16,
    pub options: BytesMut,
}

/// A header as a value: its fields, and its options as the bytes they hold.
pub struct TcpFields {
    pub src_port: u16,
    pub dst_port: u16,
    pub seq: u32,
    pub ack: u32,
    pub data_offset: u8,
    pub flags: u16,
    pub window: u16,
    pub urg_ptr: u16,
    pub options: Seq<u8>,
}

impl View for TcpHeader {
    type V = TcpFields;

    open spec fn view(&self) -> TcpFields {
        TcpFields {
            src_port: self.src_port,
            dst_port: self.dst_port,
            seq: self.seq,
            ack: self.ack,
            data_offset: self.data_offset,
            flags: self.flags,
            window: self.window,
            urg_ptr: self.urg_ptr,
            options: buf_bytes(self.options),
        }
    }
}

/// The fields of a header of five words, without options and with a zero
/// urgent pointer.
pub open spec fn plain_header(
    src_port: u16,
    dst_port: u16,
    seq: u32,
    ack: u32,
    flags: u16,
    window: u16,
) -> TcpFields {
    TcpFields {
        src_port,
        dst_port,
        seq,
        ack,
        data_offset: 5,
        flags,
        window,
        urg_ptr: 0,
        options: Seq::empty(),
    }
}

/// The 16-bit word that holds the data offset in its top four bits and the
/// flags in its low nine.
pub open spec fn offset_and_flags(data_offset: u8, flags: u16) -> u16 {
    ((data_offset % 16) * 4096 + flags % 512) as u16
}

/// The header bytes of `h` with `checksum` in the checksum field.
pub open spec fn tcp_header_bytes(h: TcpFields, checksum: u16) -> Seq<u8> {
    be16(h.src_port) + be16(h.dst_port) + be32(h.seq) + be32(h.ack) + be16(
        offset_and_flags(h.data_offset, h.flags),
    ) + be16(h.window) + be16(checksum) + be16(h.urg_ptr) + h.options
}

/// The 12 bytes that stand before a segment of `seg_len` bytes when its
/// checksum is computed: both addresses, a zero byte, protocol 6, and the low
/// 16 bits of the segment's length.
pub open spec fn pseudo_header(src_ip: Seq<u8>, dst_ip: Seq<u8>, seg_len: nat) -> Seq<u8> {
    src_ip + dst_ip + seq![0u8, 6u8] + be16((seg_len % 0x1_0000) as u16)
}

/// The checksum that a segment carries: that of the pseudo-header followed
/// by the segment with a zero checksum field.
pub open spec fn tcp_checksum(h: TcpFields, payload: Seq<u8>, src_ip: Seq<u8>, dst_ip: Seq<u8>)
    -> u16 {
    let zeroed = tcp_header_bytes(h, 0) + payload;
    checksum_of(pseudo_header(src_ip, dst_ip, zeroed.len()) + zeroed)
}

/// The segment that `h` and `payload` encode to between the two addresses.
pub open spec fn tcp_segment(h: TcpFields, payload: Seq<u8>, src_ip: Seq<u8>, dst_ip: Seq<u8>)
    -> Seq<u8> {
    tcp_header_bytes(h, tcp_checksum(h, payload, src_ip, dst_ip)) + payload
}

impl TcpHeader {
    /// A header without options: five words long.
    pub fn new(src_port: u16, dst_port: u16, seq: u32, ack: u32, flags: u16, window: u16) -> (h:
        TcpHeader)
        ensures
            h@ == plain_header(src_port, dst_port, seq, ack, flags, window),
    {
        TcpHeader {
            src_port,
            dst_port,
            seq,
            ack,
            data_offset: 5,
            flags,
            window,
            urg_ptr: 0,
            options: BytesMut::new(),
        }
    }

    /// Builds the segment: the fixed header, the options, then `payload`, with
    /// the checksum over the pseudo-header and the segment written into the
    /// checksum field.
    pub fn encode(&self, payload: &[u8], src_ip: [u8; 4], dst_ip: [u8; 4]) -> (buf: BytesMut)
        requires
            buf_bytes(self.options).len() + payload@.len() + 32 <= isize::MAX,
        ensures
            buf_bytes(buf) == tcp_segment(self@, payload@, src_ip@, dst_ip@),
    {
        let total_len: usize = 20 + self.options.len() + payload.len();
        let mut buf = BytesMut::with_capacity(total_len);
        put_u16(&mut buf, self.src_port);
        put_u16(&mut buf, self.dst_port);
        put_u32(&mut buf, self.seq);
        put_u32(&mut buf, self.ack);
        let off_res_flags: u16 = ((self.data_offset % 16) as u16) * 4096 + self.flags % 512;
        put_u16(&mut buf, off_res_flags);
        put_u16(&mut buf, self.window);
        put_u16(&mut buf, 0);
        put_u16(&mut buf, self.urg_ptr);
        if !self.options.is_empty() {
            buf.extend_from_slice(as_slice(&self.options));
        }
        buf.extend_from_slice(payload);
        let ghost zeroed = tcp_header_bytes(self@, 0) + payload@;
        assert(buf_bytes(buf) =~= zeroed);

        let mut pseudo = BytesMut::with_capacity(12 + total_len);
        pseudo.extend_from_slice(&src_ip);
        pseudo.extend_from_slice(&dst_ip);
        put_u8(&mut pseudo, 0);
        put_u8(&mut pseudo, 6);
        put_u16(&mut pseudo, (total_len % 0x1_0000) as u16);
        pseudo.extend_from_slice(as_slice(&buf));
        assert(buf_bytes(pseudo) =~= pseudo_header(src_ip@, dst_ip@, zeroed.len()) + zeroed);

        let cksum: u16 = ones_complement(as_slice(&pseudo));
        set_byte(&mut buf, 16, (cksum / 256) as u8);
        set_byte(&mut buf, 17, (cksum % 256) as u8);
        assert(buf_bytes(buf) =~= tcp_segment(self@, payload@, src_ip@, dst_ip@));
        buf
    }
}

impl Clone for TcpHeader {
    /// A header with the same fields and the same option bytes.
    fn clone(&self) -> (c: Self)
        ensures
            c@ == self@,
    {
        TcpHeader {
            src_port: self.src_port,
            dst_port: self.dst_port,
            seq: self.seq,
            ack: self.ack,
            data_offset: self.data_offset,
            flags: self.flags,
            window: self.window,
            urg_ptr: self.urg_ptr,
            options: self.options.clone(),
        }
    }
}

impl Default for TcpHeader {
    /// A header whose every field is zero and that holds no options.
    fn default() -> (h: Self)
        ensures
            h@ == (TcpFields {
                src_port: 0,
                dst_port: 0,
                seq: 0,
                ack: 0,
                data_offset: 0,
                flags: 0,
                window: 0,
                urg_ptr: 0,
                options: Seq::empty(),
            }),
    {
        TcpHeader {
            src_port: 0,
            dst_port: 0,
            seq: 0,
            ack: 0,
            data_offset: 0,
            flags: 0,
            window: 0,
            urg_ptr: 0,
            options: BytesMut::new(),
        }
    }
}

/// A parsed segment: the header fields and the payload bytes.
pub struct Segment {
    pub src_port: u16,
    pub dst_port: u16,
    pub seq: u32,
    pub ack: u32,
    pub data_offset_words: u8,
    pub flags: u16,
    pub window: u16,
    pub checksum: u16,
    pub urg_ptr: u16,
    pub payload: Seq<u8>,
}

/// What `parse` reads out of a segment, options skipped. `payload` borrows
/// from the segment.
pub struct TcpView<'a> {
    pub src_port: u16,
    pub dst_port: u16,
    pub seq: u32,
    pub ack: u32,
    pub data_offset_words: u8,
    pub flags: u16,
    pub window: u16,
    pub checksum: u16,
    pub urg_ptr: u16,
    pub payload: &'a [u8],
}

impl<'a> View for TcpView<'a> {
    type V = Segment;

    open spec fn view(&self) -> Segment {
        Segment {
            src_port: self.src_port,
            dst_port: self.dst_port,
            seq: self.seq,
            ack: self.ack,
            data_offset_words: self.data_offset_words,
            flags: self.flags,
            window: self.window,
            checksum: self.checksum,
            urg_ptr: self.urg_ptr,
            payload: self.payload@,
        }
    }
}

/// The header length that a segment declares, in bytes.
pub open spec fn tcp_header_len(seg: Seq<u8>) -> int {
    (seg[12] / 16) * 4
}

/// Whether a segment parses: at least 20 bytes, and a declared header of at
/// least 20 bytes that lies within the segment.
pub open spec fn tcp_accepts(seg: Seq<u8>) -> bool {
    &&& seg.len() >= 20
    &&& 20 <= tcp_header_len(seg) <= seg.len()
}

/// The fields of a segment; `None` where the segment does not parse.
pub open spec fn tcp_parse(seg: Seq<u8>) -> Option<Segment> {
    if tcp_accepts(seg) {
        Some(
            Segment {
                src_port: from_be16(seg[0], seg[1]),
                dst_port: from_be16(seg[2], seg[3]),
                seq: from_be32(seg[4], seg[5], seg[6], seg[7]),
                ack: from_be32(seg[8], seg[9], seg[10], seg[11]),
                data_offset_words: seg[12] / 16,
                flags: from_be16(seg[12], seg[13]) % 512,
                window: from_be16(seg[14], seg[15]),
                checksum: from_be16(seg[16], seg[17]),
                urg_ptr: from_be16(seg[18], seg[19]),
                payload: seg.skip(tcp_header_len(seg)),
            },
        )
    } else {
        None
    }
}

/// Reads two bytes of `seg` at `i`, most significant first.
fn read_u16(seg: &[u8], i: usize) -> (v: u16)
    requires
        i + 2 <= seg@.len(),
    ensures
        v == from_be16(seg@[i as int], seg@[i + 1]),
{
    (seg[i] as u16) * 256 + seg[i + 1] as u16
}

/// Reads four bytes of `seg` at `i`, most significant first.
fn read_u32(seg: &[u8], i: usize) -> (v: u32)
    requires
        i + 4 <= seg@.len(),
    ensures
        v == from_be32(seg@[i as int], seg@[i + 1], seg@[i + 2], seg@[i + 3]),
{
    (seg[i] as u32) * 0x100_0000 + (seg[i + 1] as u32) * 0x1_0000 + (seg[i + 2] as u32) * 256
        + seg[i + 3] as u32
}

/// Reads a TCP segment. Returns `None` when it is shorter than 20 bytes or
/// declares a header of fewer than 20 bytes or of more bytes than it holds.
pub fn parse(seg: &[u8]) -> (r: Option<TcpView<'_>>)
    ensures
        r is Some <==> tcp_accepts(seg@),
        r is None <==> tcp_parse(seg@) is None,
        r matches Some(v) ==> tcp_parse(seg@) == Some(v@),
{
    if seg.len() < 20 {
        return None;
    }
    let src_port: u16 = read_u16(seg, 0);
    let dst_port: u16 = read_u16(seg, 2);
    let seq: u32 = read_u32(seg, 4);
    let ack: u32 = read_u32(seg, 8);
    let off_flags: u16 = read_u16(seg, 12);
    let data_offset_words: u8 = (off_flags / 4096) as u8;
    let flags: u16 = off_flags % 512;
    let window: u16 = read_u16(seg, 14);
    let checksum: u16 = read_u16(seg, 16);
    let urg_ptr: u16 = read_u16(seg, 18);
    let hdr_len: usize = (data_offset_words as usize) * 4;
    if hdr_len < 20 || seg.len() < hdr_len {
        return None;
    }
    let payload = slice_subrange(seg, hdr_len, seg.len());
    Some(
        TcpView {
            src_port,
            dst_port,
            seq,
            ack,
            data_offset_words,
            flags,
            window,
            checksum,
            urg_ptr,
            payload,
        },
    )
}

/// Whether a segment between the two addresses is authentic: it parses, and
/// the pseudo-header followed by the segment as it stands sums to checksum
/// zero.
pub open spec fn tcp_checksum_valid(seg: Seq<u8>, src_ip: Seq<u8>, dst_ip: Seq<u8>) -> bool {
    tcp_accepts(seg) && checksum_of(pseudo_header(src_ip, dst_ip, seg.len()) + seg) == 0
}

/// Checks the checksum of a segment against the IPv4 pseudo-header.
pub fn verify_checksum(seg: &[u8], src_ip: [u8; 4], dst_ip: [u8; 4]) -> (ok: bool)
    requires
        seg@.len() + 12 <= isize::MAX,
    ensures
        ok == tcp_checksum_valid(seg@, src_ip@, dst_ip@),
{
    if seg.len() < 20 {
        return false;
    }
    let hdr_len: usize = ((seg[12] / 16) as usize) * 4;
    if hdr_len < 20 || seg.len() < hdr_len {
        return false;
    }
    let mut pseudo = BytesMut::with_capacity(12 + seg.len());
    pseudo.extend_from_slice(&src_ip);
    pseudo.extend_from_slice(&dst_ip);
    put_u8(&mut pseudo, 0);
    put_u8(&mut pseudo, 6);
    put_u16(&mut pseudo, (seg.len() % 0x1_0000) as u16);
    pseudo.extend_from_slice(seg);
    assert(buf_bytes(pseudo) =~= pseudo_header(src_ip@, dst_ip@, seg@.len()) + seg@);
    ones_complement(as_slice(&pseudo)) == 0
}

/// Where each field of a header lies among its bytes.
proof fn lemma_header_layout(h: TcpFields, checksum: u16)
    ensures
        tcp_header_bytes(h, checksum).len() == 20 + h.options.len(),
        tcp_header_bytes(h, checksum).subrange(0, 2) == be16(h.src_port),
        tcp_header_bytes(h, checksum).subrange(2, 4) == be16(h.dst_port),
        tcp_header_bytes(h, checksum).subrange(4, 8) == be32(h.seq),
        tcp_header_bytes(h, checksum).subrange(8, 12) == be32(h.ack),
        tcp_header_bytes(h, checksum).subrange(12, 14) == be16(
            offset_and_flags(h.data_offset, h.flags),
        ),
        tcp_header_bytes(h, checksum).subrange(14, 16) == be16(h.window),
        tcp_header_bytes(h, checksum).subrange(16, 18) == be16(checksum),
        tcp_header_bytes(h, checksum).subrange(18, 20) == be16(h.urg_ptr),
        tcp_header_bytes(h, checksum).skip(20) == h.options,
{
    let hb = tcp_header_bytes(h, checksum);
    let a = be16(h.src_port);
    let b = be16(h.dst_port);
    let c = be32(h.seq);
    let d = be32(h.ack);
    let e = be16(offset_and_flags(h.data_offset, h.flags));
    let f = be16(h.window);
    let g = be16(checksum);
    let u = be16(h.urg_ptr);
    let o = h.options;
    assert(a.len() == 2 && b.len() == 2 && c.len() == 4 && d.len() == 4 && e.len() == 2
        && f.len() == 2 && g.len() == 2 && u.len() == 2);
    assert(hb == a + b + c + d + e + f + g + u + o);
    assert(hb.subrange(0, 2) =~= a);
    assert(hb.subrange(2, 4) =~= b);
    assert(hb.subrange(4, 8) =~= c);
    assert(hb.subrange(8, 12) =~= d);
    assert(hb.subrange(12, 14) =~= e);
    assert(hb.subrange(14, 16) =~= f);
    assert(hb.subrange(16, 18) =~= g);
    assert(hb.subrange(18, 20) =~= u);
    assert(hb.skip(20) =~= o);
}

/// The two bytes of `s` at `i` read most significant first.
pub open spec fn word_at(s: Seq<u8>, i: int) -> u16 {
    from_be16(s[i], s[i + 1])
}

/// The four bytes of `s` at `i` read most significant first.
pub open spec fn dword_at(s: Seq<u8>, i: int) -> u32 {
    from_be32(s[i], s[i + 1], s[i + 2], s[i + 3])
}

/// A 16-bit field that lies at `i` reads back.
proof fn lemma_word_at(s: Seq<u8>, i: int, v: u16)
    requires
        0 <= i,
        i + 2 <= s.len(),
        s.subrange(i, i + 2) == be16(v),
    ensures
        word_at(s, i) == v,
        s[i] == (v / 256) as u8,
        s[i + 1] == (v % 256) as u8,
{
    lemma_be16_round_trip(v);
    assert(s[i] == s.subrange(i, i + 2)[0]);
    assert(s[i + 1] == s.subrange(i, i + 2)[1]);
}

/// A 32-bit field that lies at `i` reads back.
proof fn lemma_dword_at(s: Seq<u8>, i: int, v: u32)
    requires
        0 <= i,
        i + 4 <= s.len(),
        s.subrange(i, i + 4) == be32(v),
    ensures
        dword_at(s, i) == v,
{
    lemma_be32_round_trip(v);
    assert(s[i] == s.subrange(i, i + 4)[0]);
    assert(s[i + 1] == s.subrange(i, i + 4)[1]);
    assert(s[i + 2] == s.subrange(i, i + 4)[2]);
    assert(s[i + 3] == s.subrange(i, i + 4)[3]);
}

/// A range within the first part of a concatenation lies in that part.
proof fn lemma_prefix_subrange(x: Seq<u8>, y: Seq<u8>, a: int, b: int)
    requires
        0 <= a <= b <= x.len(),
    ensures
        (x + y).subrange(a, b) == x.subrange(a, b),
{
    assert((x + y).subrange(a, b) =~= x.subrange(a, b));
}

/// The data offset and the flags read back out of their shared word.
proof fn lemma_offset_and_flags(data_offset: u8, flags: u16)
    requires
        data_offset <= 15,
        flags < 512,
    ensures
        ((offset_and_flags(data_offset, flags) / 256) as u8) / 16 == data_offset,
        offset_and_flags(data_offset, flags) % 512 == flags,
{
    let of = offset_and_flags(data_offset, flags);
    assert(of == data_offset * 4096 + flags);
}

/// The fields of a header followed by a payload, as `tcp_parse` reads them.
proof fn lemma_parse_fields(h: TcpFields, checksum: u16, payload: Seq<u8>)
    requires
        5 <= h.data_offset <= 15,
        h.data_offset * 4 == 20 + h.options.len(),
        h.flags < 512,
    ensures
        tcp_parse(tcp_header_bytes(h, checksum) + payload) == Some(
            Segment {
                src_port: h.src_port,
                dst_port: h.dst_port,
                seq: h.seq,
                ack: h.ack,
                data_offset_words: h.data_offset,
                flags: h.flags,
                window: h.window,
                checksum,
                urg_ptr: h.urg_ptr,
                payload,
            },
        ),
{
    let header = tcp_header_bytes(h, checksum);
    let seg = header + payload;
    let of = offset_and_flags(h.data_offset, h.flags);
    lemma_header_layout(h, checksum);
    lemma_prefix_subrange(header, payload, 0, 2);
    lemma_prefix_subrange(header, payload, 2, 4);
    lemma_prefix_subrange(header, payload, 4, 8);
    lemma_prefix_subrange(header, payload, 8, 12);
    lemma_prefix_subrange(header, payload, 12, 14);
    lemma_prefix_subrange(header, payload, 14, 16);
    lemma_prefix_subrange(header, payload, 16, 18);
    lemma_prefix_subrange(header, payload, 18, 20);
    lemma_word_at(seg, 0, h.src_port);
    lemma_word_at(seg, 2, h.dst_port);
    lemma_dword_at(seg, 4, h.seq);
    lemma_dword_at(seg, 8, h.ack);
    lemma_word_at(seg, 12, of);
    lemma_word_at(seg, 14, h.window);
    lemma_word_at(seg, 16, checksum);
    lemma_word_at(seg, 18, h.urg_ptr);
    lemma_offset_and_flags(h.data_offset, h.flags);
    assert(seg[12] / 16 == h.data_offset);
    assert(tcp_header_len(seg) == header.len());
    assert(seg.skip(header.len() as int) =~= payload);
}

/// Writing the checksum into a segment with a zero checksum field gives the
/// segment with that checksum.
proof fn lemma_checksum_field(h: TcpFields, c: u16, payload: Seq<u8>)
    ensures
        tcp_header_bytes(h, c) + payload == with_word_at(tcp_header_bytes(h, 0) + payload, 16, c),
        (tcp_header_bytes(h, 0) + payload)[16] == 0,
        (tcp_header_bytes(h, 0) + payload)[17] == 0,
        (tcp_header_bytes(h, 0) + payload).len() >= 20,
{
    let seg = tcp_header_bytes(h, c) + payload;
    let zeroed = tcp_header_bytes(h, 0) + payload;
    lemma_header_layout(h, c);
    lemma_header_layout(h, 0);
    lemma_prefix_subrange(tcp_header_bytes(h, 0), payload, 16, 18);
    lemma_prefix_subrange(tcp_header_bytes(h, c), payload, 16, 18);
    lemma_word_at(zeroed, 16, 0);
    lemma_word_at(seg, 16, c);
    assert(seg.len() == zeroed.len());
    assert forall|i: int| 0 <= i < seg.len() implies seg[i] == with_word_at(zeroed, 16, c)[i] by {
        if i != 16 && i != 17 {
            lemma_header_bytes_agree(h, c, 0, i);
        }
    }
    assert(seg =~= with_word_at(zeroed, 16, c));
}

/// Encoding and parsing round trip: a segment built from a header whose
/// data offset matches its options parses, gives back every header field and
/// the payload, and passes the checksum test between the same two addresses.
pub proof fn lemma_tcp_round_trip(
    h: TcpFields,
    payload: Seq<u8>,
    src_ip: Seq<u8>,
    dst_ip: Seq<u8>,
)
    requires
        5 <= h.data_offset <= 15,
        h.data_offset * 4 == 20 + h.options.len(),
        h.flags < 512,
        src_ip.len() == 4,
        dst_ip.len() == 4,
    ensures
        tcp_parse(tcp_segment(h, payload, src_ip, dst_ip)) == Some(
            Segment {
                src_port: h.src_port,
                dst_port: h.dst_port,
                seq: h.seq,
                ack: h.ack,
                data_offset_words: h.data_offset,
                flags: h.flags,
                window: h.window,
                checksum: tcp_checksum(h, payload, src_ip, dst_ip),
                urg_ptr: h.urg_ptr,
                payload,
            },
        ),
        tcp_checksum_valid(tcp_segment(h, payload, src_ip, dst_ip), src_ip, dst_ip),
{
    let c = tcp_checksum(h, payload, src_ip, dst_ip);
    let seg = tcp_segment(h, payload, src_ip, dst_ip);
    let zeroed = tcp_header_bytes(h, 0) + payload;
    let pseudo = pseudo_header(src_ip, dst_ip, zeroed.len());
    lemma_parse_fields(h, c, payload);
    lemma_checksum_field(h, c, payload);
    assert(pseudo.len() == 12);
    assert(seg.len() == zeroed.len());
    assert(pseudo + seg =~= with_word_at(pseudo + zeroed, 28, c));
    lemma_checksum_round_trip(pseudo + zeroed, 28);
}

/// Two headers that differ in the checksum alone agree outside bytes 16 and 17.
proof fn lemma_header_bytes_agree(h: TcpFields, c1: u16, c2: u16, i: int)
    requires
        0 <= i,
        i != 16,
        i != 17,
    ensures
        i < tcp_header_bytes(h, c1).len() ==> tcp_header_bytes(h, c1)[i] == tcp_header_bytes(
            h,
            c2,
        )[i],
{
    let x = tcp_header_bytes(h, c1);
    let y = tcp_header_bytes(h, c2);
    lemma_header_layout(h, c1);
    lemma_header_layout(h, c2);
    if i < x.len() {
        if i < 2 {
            assert(x[i] == x.subrange(0, 2)[i] && y[i] == y.subrange(0, 2)[i]);
        } else if i < 4 {
            assert(x[i] == x.subrange(2, 4)[i - 2] && y[i] == y.subrange(2, 4)[i - 2]);
        } else if i < 8 {
            assert(x[i] == x.subrange(4, 8)[i - 4] && y[i] == y.subrange(4, 8)[i - 4]);
        } else if i < 12 {
            assert(x[i] == x.subrange(8, 12)[i - 8] && y[i] == y.subrange(8, 12)[i - 8]);
        } else if i < 14 {
            assert(x[i] == x.subrange(12, 14)[i - 12] && y[i] == y.subrange(12, 14)[i - 12]);
        } else if i < 16 {
            assert(x[i] == x.subrange(14, 16)[i - 14] && y[i] == y.subrange(14, 16)[i - 14]);
        } else if i < 20 {
            assert(x[i] == x.subrange(18, 20)[i - 18] && y[i] == y.subrange(18, 20)[i - 18]);
        } else {
            assert(x[i] == x.skip(20)[i - 20] && y[i] == y.skip(20)[i - 20]);
        }
    }
}

/// A segment is as long as its fixed header, its options and its payload.
pub proof fn lemma_segment_len(h: TcpFields, payload: Seq<u8>, src_ip: Seq<u8>, dst_ip: Seq<u8>)
    ensures
        tcp_segment(h, payload, src_ip, dst_ip).len() == 20 + h.options.len() + payload.len(),
{
    lemma_header_layout(h, tcp_checksum(h, payload, src_ip, dst_ip));
}

/// `seg` with bit `bit` of the byte at `byte` inverted.
pub open spec fn flip_bit(seg: Seq<u8>, byte: int, bit: u8) -> Seq<u8> {
    seg.update(byte, seg[byte] ^ (1u8 << bit))
}

/// Checksum sensitivity: inverting any one bit of an authentic segment makes
/// the checksum test fail.
pub proof fn lemma_bit_flip_detected(
    seg: Seq<u8>,
    src_ip: Seq<u8>,
    dst_ip: Seq<u8>,
    byte: int,
    bit: u8,
)
    requires
        tcp_checksum_valid(seg, src_ip, dst_ip),
        src_ip.len() == 4,
        dst_ip.len() == 4,
        0 <= byte < seg.len(),
        bit < 8,
    ensures
        !tcp_checksum_valid(flip_bit(seg, byte, bit), src_ip, dst_ip),
{
    let before = seg[byte];
    let after = before ^ (1u8 << bit);
    assert(after != before) by (bit_vector)
        requires
            after == before ^ (1u8 << bit),
            bit < 8,
    ;
    let flipped = flip_bit(seg, byte, bit);
    let pseudo = pseudo_header(src_ip, dst_ip, seg.len());
    let data = pseudo + seg;
    assert(pseudo.len() == 12);
    assert(pseudo + flipped =~= data.update(12 + byte, after));
    lemma_word_sum_update(data, 12 + byte, after);
    lemma_checksum_zero_iff(data);
    lemma_checksum_zero_iff(pseudo + flipped);
    let s = word_sum(data);
    let t = word_sum(pseudo + flipped);
    let w = byte_weight(12 + byte);
    assert(flipped.len() == seg.len());
    if t % 65535 == 0 {
        lemma_fundamental_div_mod(s as int, 65535);
        lemma_fundamental_div_mod(t as int, 65535);
        let qs = s as int / 65535;
        let qt = t as int / 65535;
        assert(s == 65535 * qs && t == 65535 * qt);
        if w == 256 {
            assert(t - s == 256 * (after - before));
        } else {
            assert(t - s == after - before);
        }
        assert(-65535 < t - s < 65535 && t != s);
        assert(qt != qs);
        assert(false);
    }
}

} // verus!
