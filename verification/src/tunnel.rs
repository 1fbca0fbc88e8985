//! A framing for carrying frames over a datagram transport: magic, version,
//! connection id, kind, payload length, payload.

use crate::buffer::{
    as_slice, be16, be32, buf_bytes, from_be16, from_be32, get_u16, get_u32, get_u8,
    lemma_be16_round_trip, lemma_be32_round_trip, put_u16, put_u32, put_u8,
};
use crate::error::UtcpError;
use bytes::BytesMut;
use vstd::prelude::*;

verus! {

/// The four bytes that open every tunnel frame: "uTCP".
pub const MAGIC: [u8; 4] = [0x75, 0x54, 0x43, 0x50];

/// The one version of the framing.
pub const VERSION: u8 = 1;

/// The length of the tunnel header.
pub const HEADER_LEN: usize = 12;

/// What a tunnel frame is for.
#[derive(Clone, Copy, Debug, PartialEq, Eq, Structural)]
pub enum Kind {
    Hello,
    Data,
    Ping,
    Pong,
}

impl Kind {
    /// The byte that stands for a kind on the wire.
    pub open spec fn spec_code(self) -> u8 {
        match self {
            Kind::Hello => 0,
            Kind::Data => 1,
            Kind::Ping => 2,
            Kind::Pong => 3,
        }
    }

    /// The kind that a byte stands for, if any.
    pub open spec fn spec_from_code(code: u8) -> Option<Kind> {
        if code == 0 {
            Some(Kind::Hello)
        } else if code == 1 {
            Some(Kind::Data)
        } else if code == 2 {
            Some(Kind::Ping)
        } else if code == 3 {
            Some(Kind::Pong)
        } else {
            None
        }
    }

    /// The byte that stands for this kind on the wire.
    pub fn code(self) -> (c: u8)
        ensures
            c == self.spec_code(),
    {
        match self {
            Kind::Hello => 0,
            Kind::Data => 1,
            Kind::Ping => 2,
            Kind::Pong => 3,
        }
    }

    /// The kind that `code` stands for; `None` for a byte above 3.
    pub fn from_code(code: u8) -> (k: Option<Kind>)
        ensures
            k == Kind::spec_from_code(code),
    {
        match code {
            0 => Some(Kind::Hello),
            1 => Some(Kind::Data),
            2 => Some(Kind::Ping),
            3 => Some(Kind::Pong),
            _ => None,
        }
    }
}

/// The header of a tunnel frame.
#[derive(Clone, Copy, Debug)]
pub struct TunnelHdr {
    /// The connection id, local to the receiver.
    pub cid: u32,
    pub kind: Kind,
}

/// The frame that `h` and `payload` encode to. The length field holds the low
/// 16 bits of the payload's length.
pub open spec fn tunnel_frame(h: TunnelHdr, payload: Seq<u8>) -> Seq<u8> {
    MAGIC@ + seq![VERSION] + be32(h.cid) + seq![h.kind.spec_code()] + be16(
        (payload.len() % 0x1_0000) as u16,
    ) + payload
}

/// The payload length that a frame declares.
pub open spec fn tunnel_payload_len(frame: Seq<u8>) -> int {
    from_be16(frame[10], frame[11]) as int
}

/// Whether a frame decodes: 12 header bytes that open with the magic, the
/// known version, a known kind, and at least as many bytes behind the header
/// as the length field declares.
pub open spec fn tunnel_accepts(frame: Seq<u8>) -> bool {
    &&& frame.len() >= 12
    &&& frame.take(4) == MAGIC@
    &&& frame[4] == VERSION
    &&& Kind::spec_from_code(frame[9]) is Some
    &&& 12 + tunnel_payload_len(frame) <= frame.len()
}

/// The header that a frame carries.
pub open spec fn tunnel_header(frame: Seq<u8>) -> TunnelHdr {
    TunnelHdr {
        cid: from_be32(frame[5], frame[6], frame[7], frame[8]),
        kind: Kind::spec_from_code(frame[9]).unwrap(),
    }
}

/// The declared payload of a frame; what lies behind it is left out.
pub open spec fn tunnel_payload(frame: Seq<u8>) -> Seq<u8> {
    frame.subrange(12, 12 + tunnel_payload_len(frame))
}

impl TunnelHdr {
    /// Builds the frame: the 12-byte header followed by `payload`.
    pub fn encode(&self, payload: &[u8]) -> (b: BytesMut)
        requires
            payload@.len() + 12 <= isize::MAX,
        ensures
            buf_bytes(b) == tunnel_frame(*self, payload@),
    {
        let mut b = BytesMut::with_capacity(4 + 1 + 4 + 1 + 2 + payload.len());
        b.extend_from_slice(&MAGIC);
        put_u8(&mut b, VERSION);
        put_u32(&mut b, self.cid);
        put_u8(&mut b, self.kind.code());
        put_u16(&mut b, (payload.len() % 0x1_0000) as u16);
        b.extend_from_slice(payload);
        assert(buf_bytes(b) =~= tunnel_frame(*self, payload@));
        b
    }

    /// Takes a frame apart into its header and its declared payload. Fails
    /// with `Malformed` exactly for the frames that `tunnel_accepts` rejects.
    pub fn decode(buf: BytesMut) -> (r: Result<(TunnelHdr, BytesMut), UtcpError>)
        ensures
            r is Ok <==> tunnel_accepts(buf_bytes(buf)),
            r matches Ok((h, p)) ==> h == tunnel_header(buf_bytes(buf)) && buf_bytes(p)
                == tunnel_payload(buf_bytes(buf)),
            r matches Err(e) ==> e == UtcpError::Malformed,
    {
        let mut buf = buf;
        let ghost frame = buf_bytes(buf);
        if buf.len() < 12 {
            return Err(UtcpError::Malformed);
        }
        let magic = buf.split_to(4);
        let m = as_slice(&magic);
        if m[0] != MAGIC[0] || m[1] != MAGIC[1] || m[2] != MAGIC[2] || m[3] != MAGIC[3] {
            assert(frame.take(4)[0] == m@[0] && frame.take(4)[1] == m@[1] && frame.take(4)[2]
                == m@[2] && frame.take(4)[3] == m@[3]);
            return Err(UtcpError::Malformed);
        }
        assert(frame.take(4) =~= MAGIC@);
        let ver: u8 = get_u8(&mut buf);
        if ver != VERSION {
            return Err(UtcpError::Malformed);
        }
        let cid: u32 = get_u32(&mut buf);
        let kind = match Kind::from_code(get_u8(&mut buf)) {
            Some(k) => k,
            None => {
                return Err(UtcpError::Malformed);
            },
        };
        let len: usize = get_u16(&mut buf) as usize;
        assert(buf_bytes(buf) =~= frame.skip(12));
        if buf.len() < len {
            return Err(UtcpError::Malformed);
        }
        let payload = buf.split_to(len);
        assert(buf_bytes(payload) =~= tunnel_payload(frame));
        Ok((TunnelHdr { cid, kind }, payload))
    }
}

/// Encoding and decoding round trip: a frame built from a payload of at most
/// 65535 bytes decodes to the same header and payload.
pub proof fn lemma_tunnel_round_trip(h: TunnelHdr, payload: Seq<u8>)
    requires
        payload.len() <= 65535,
    ensures
        tunnel_accepts(tunnel_frame(h, payload)),
        tunnel_header(tunnel_frame(h, payload)) == h,
        tunnel_payload(tunnel_frame(h, payload)) == payload,
{
    let frame = tunnel_frame(h, payload);
    let len = (payload.len() % 0x1_0000) as u16;
    lemma_be32_round_trip(h.cid);
    lemma_be16_round_trip(len);
    assert(MAGIC@.len() == 4);
    assert(frame.len() == 12 + payload.len());
    assert(frame.take(4) =~= MAGIC@);
    assert(frame[4] == VERSION);
    assert(frame[5] == be32(h.cid)[0] && frame[6] == be32(h.cid)[1] && frame[7] == be32(h.cid)[2]
        && frame[8] == be32(h.cid)[3]);
    assert(frame[9] == h.kind.spec_code());
    assert(frame[10] == be16(len)[0] && frame[11] == be16(len)[1]);
    assert(Kind::spec_from_code(h.kind.spec_code()) == Some(h.kind));
    assert(tunnel_payload(frame) =~= payload);
}

} // verus!
