//! Contracts for the byte buffer of the `bytes` crate.
//!
//! The codec builds its frames in a `BytesMut`. The contracts of the buffer's
//! functions are taken on trust: each states what the `bytes` crate does, over
//! the sequence of bytes that a buffer holds.

use bytes::Buf;
use bytes::BufMut;
use bytes::BytesMut;
use vstd::prelude::*;

verus! {

/// `bytes::BytesMut`, a growable byte buffer. Verus sees nothing inside it:
/// what it holds is `buf_bytes`.
#[verifier::external_type_specification]
#[verifier::external_body]
pub struct ExBytesMut(bytes::BytesMut);

/// The bytes that a `BytesMut` holds, first to last: what dereferencing it to
/// a slice shows.
pub uninterp spec fn buf_bytes(b: BytesMut) -> Seq<u8>;

/// The two bytes of `v`, most significant first.
pub open spec fn be16(v: u16) -> Seq<u8> {
    seq![(v / 256) as u8, (v % 256) as u8]
}

/// The four bytes of `v`, most significant first.
pub open spec fn be32(v: u32) -> Seq<u8> {
    seq![
        (v / 0x100_0000) as u8,
        (v / 0x1_0000 % 256) as u8,
        (v / 256 % 256) as u8,
        (v % 256) as u8,
    ]
}

/// The value of two bytes read most significant first.
pub open spec fn from_be16(hi: u8, lo: u8) -> u16 {
    (hi as int * 256 + lo as int) as u16
}

/// The value of four bytes read most significant first.
pub open spec fn from_be32(b0: u8, b1: u8, b2: u8, b3: u8) -> u32 {
    (b0 as int * 0x100_0000 + b1 as int * 0x1_0000 + b2 as int * 256 + b3 as int) as u32
}

/// Two bytes written most significant first read back as the same value.
pub proof fn lemma_be16_round_trip(v: u16)
    ensures
        be16(v).len() == 2,
        from_be16(be16(v)[0], be16(v)[1]) == v,
{
}

/// Four bytes written most significant first read back as the same value.
pub proof fn lemma_be32_round_trip(v: u32)
    ensures
        be32(v).len() == 4,
        from_be32(be32(v)[0], be32(v)[1], be32(v)[2], be32(v)[3]) == v,
{
}

/// `BytesMut::with_capacity`: a buffer that holds no bytes. The call panics
/// when the capacity exceeds `isize::MAX`, which `requires` leaves out.
pub assume_specification[ BytesMut::with_capacity ](capacity: usize) -> (b: BytesMut)
    requires
        capacity <= isize::MAX,
    ensures
        buf_bytes(b) == Seq::<u8>::empty(),
;

/// `BytesMut::new`: a buffer that holds no bytes.
pub assume_specification[ BytesMut::new ]() -> (b: BytesMut)
    ensures
        buf_bytes(b) == Seq::<u8>::empty(),
;

/// `Clone::clone` of a `BytesMut`: a buffer that holds the same bytes.
pub assume_specification[ <BytesMut as Clone>::clone ](b: &BytesMut) -> (c: BytesMut)
    ensures
        buf_bytes(c) == buf_bytes(*b),
;

/// `BytesMut::len`: the number of bytes held.
pub assume_specification[ BytesMut::len ](b: &BytesMut) -> (n: usize)
    ensures
        n == buf_bytes(*b).len(),
;

/// `BytesMut::is_empty`: whether no byte is held.
pub assume_specification[ BytesMut::is_empty ](b: &BytesMut) -> (e: bool)
    ensures
        e == (buf_bytes(*b).len() == 0),
;

/// `BytesMut::extend_from_slice`: appends the slice. The buffer grows as
/// needed; growth beyond `isize::MAX` bytes panics, which `requires` leaves out.
pub assume_specification[ BytesMut::extend_from_slice ](b: &mut BytesMut, extend: &[u8])
    requires
        buf_bytes(*old(b)).len() + extend@.len() <= isize::MAX,
    ensures
        buf_bytes(*final(b)) == buf_bytes(*old(b)) + extend@,
;

/// `BytesMut::split_to`: hands out the first `at` bytes and keeps the rest.
/// The call panics when `at` exceeds the length, which `requires` leaves out.
pub assume_specification[ BytesMut::split_to ](b: &mut BytesMut, at: usize) -> (head: BytesMut)
    requires
        at <= buf_bytes(*old(b)).len(),
    ensures
        buf_bytes(head) == buf_bytes(*old(b)).take(at as int),
        buf_bytes(*final(b)) == buf_bytes(*old(b)).skip(at as int),
;

/// `BufMut::put_u8` on a `BytesMut`: appends one byte.
#[verifier::external_body]
pub(crate) fn put_u8(b: &mut BytesMut, v: u8)
    requires
        buf_bytes(*old(b)).len() + 1 <= isize::MAX,
    ensures
        buf_bytes(*final(b)) == buf_bytes(*old(b)).push(v),
{
    b.put_u8(v)
}

/// `BufMut::put_u16` on a `BytesMut`: appends the value's two bytes,
/// most significant first.
#[verifier::external_body]
pub(crate) fn put_u16(b: &mut BytesMut, v: u16)
    requires
        buf_bytes(*old(b)).len() + 2 <= isize::MAX,
    ensures
        buf_bytes(*final(b)) == buf_bytes(*old(b)) + be16(v),
{
    b.put_u16(v)
}

/// `BufMut::put_u32` on a `BytesMut`: appends the value's four bytes,
/// most significant first.
#[verifier::external_body]
pub(crate) fn put_u32(b: &mut BytesMut, v: u32)
    requires
        buf_bytes(*old(b)).len() + 4 <= isize::MAX,
    ensures
        buf_bytes(*final(b)) == buf_bytes(*old(b)) + be32(v),
{
    b.put_u32(v)
}

/// `Buf::get_u8` on a `BytesMut`: removes and returns the first byte. The
/// call panics on an empty buffer, which `requires` leaves out.
#[verifier::external_body]
pub(crate) fn get_u8(b: &mut BytesMut) -> (v: u8)
    requires
        buf_bytes(*old(b)).len() >= 1,
    ensures
        v == buf_bytes(*old(b))[0],
        buf_bytes(*final(b)) == buf_bytes(*old(b)).skip(1),
{
    b.get_u8()
}

/// `Buf::get_u16` on a `BytesMut`: removes the first two bytes and returns
/// them read most significant first. The call panics on fewer than two bytes,
/// which `requires` leaves out.
#[verifier::external_body]
pub(crate) fn get_u16(b: &mut BytesMut) -> (v: u16)
    requires
        buf_bytes(*old(b)).len() >= 2,
    ensures
        v == from_be16(buf_bytes(*old(b))[0], buf_bytes(*old(b))[1]),
        buf_bytes(*final(b)) == buf_bytes(*old(b)).skip(2),
{
    b.get_u16()
}

/// `Buf::get_u32` on a `BytesMut`: removes the first four bytes and returns
/// them read most significant first. The call panics on fewer than four bytes,
/// which `requires` leaves out.
#[verifier::external_body]
pub(crate) fn get_u32(b: &mut BytesMut) -> (v: u32)
    requires
        buf_bytes(*old(b)).len() >= 4,
    ensures
        v == from_be32(
            buf_bytes(*old(b))[0],
            buf_bytes(*old(b))[1],
            buf_bytes(*old(b))[2],
            buf_bytes(*old(b))[3],
        ),
        buf_bytes(*final(b)) == buf_bytes(*old(b)).skip(4),
{
    b.get_u32()
}

/// Indexed assignment through `DerefMut` of a `BytesMut`: replaces the byte
/// at `i`. An index past the end panics, which `requires` leaves out.
#[verifier::external_body]
pub(crate) fn set_byte(b: &mut BytesMut, i: usize, v: u8)
    requires
        i < buf_bytes(*old(b)).len(),
    ensures
        buf_bytes(*final(b)) == buf_bytes(*old(b)).update(i as int, v),
{
    b[i] = v;
}

/// `Deref` of a `BytesMut`: the held bytes as a slice.
#[verifier::external_body]
pub(crate) fn as_slice(b: &BytesMut) -> (s: &[u8])
    ensures
        s@ == buf_bytes(*b),
{
    &b[..]
}

} // verus!
