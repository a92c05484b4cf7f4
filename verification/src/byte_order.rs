//! Big-endian layout of fixed-width unsigned integers.
//!
//! The layout is stated as arithmetic on the integer's value; the conversions
//! themselves are done by the `byteorder` crate.

use byteorder::{BigEndian, ByteOrder};
use vstd::prelude::*;

verus! {

/// The byte of `v` that stands at `place`, a power of 256: the digit of `v`
/// there when `v` is written to the base 256.
#[verifier::opaque]
pub open spec fn byte_at(v: u64, place: u64) -> u8 {
    (v / place % 0x100) as u8
}

/// The two bytes of `v`, most significant first.
pub open spec fn be_bytes_u16(v: u16) -> Seq<u8> {
    seq![byte_at(v as u64, 0x100), byte_at(v as u64, 1)]
}

/// The four bytes of `v`, most significant first.
pub open spec fn be_bytes_u32(v: u32) -> Seq<u8> {
    seq![
        byte_at(v as u64, 0x100_0000),
        byte_at(v as u64, 0x1_0000),
        byte_at(v as u64, 0x100),
        byte_at(v as u64, 1),
    ]
}

/// The eight bytes of `v`, most significant first.
pub open spec fn be_bytes_u64(v: u64) -> Seq<u8> {
    seq![
        byte_at(v, 0x100_0000_0000_0000),
        byte_at(v, 0x1_0000_0000_0000),
        byte_at(v, 0x100_0000_0000),
        byte_at(v, 0x1_0000_0000),
        byte_at(v, 0x100_0000),
        byte_at(v, 0x1_0000),
        byte_at(v, 0x100),
        byte_at(v, 1),
    ]
}

/// The integer whose big-endian layout is the two bytes `s`.
#[verifier::opaque]
pub open spec fn be_value_u16(s: Seq<u8>) -> u16
    recommends
        s.len() == 2,
{
    (s[0] * 0x100 + s[1]) as u16
}

/// The integer whose big-endian layout is the four bytes `s`.
#[verifier::opaque]
pub open spec fn be_value_u32(s: Seq<u8>) -> u32
    recommends
        s.len() == 4,
{
    (s[0] * 0x100_0000 + s[1] * 0x1_0000 + s[2] * 0x100 + s[3]) as u32
}

/// The integer whose big-endian layout is the eight bytes `s`.
#[verifier::opaque]
pub open spec fn be_value_u64(s: Seq<u8>) -> u64
    recommends
        s.len() == 8,
{
    (s[0] * 0x100_0000_0000_0000 + s[1] * 0x1_0000_0000_0000 + s[2] * 0x100_0000_0000 + s[3]
        * 0x1_0000_0000 + s[4] * 0x100_0000 + s[5] * 0x1_0000 + s[6] * 0x100 + s[7]) as u64
}

/// `byteorder::BigEndian::read_u16`: the first two bytes of `buf` taken as a
/// big-endian integer. The outside function panics on a shorter buffer.
#[verifier::external_body]
pub(crate) fn read_u16(buf: &[u8]) -> (v: u16)
    requires
        buf@.len() >= 2,
    ensures
        v == be_value_u16(buf@.take(2)),
{
    BigEndian::read_u16(buf)
}

/// `byteorder::BigEndian::read_u32`: the first four bytes of `buf` taken as a
/// big-endian integer. The outside function panics on a shorter buffer.
#[verifier::external_body]
pub(crate) fn read_u32(buf: &[u8]) -> (v: u32)
    requires
        buf@.len() >= 4,
    ensures
        v == be_value_u32(buf@.take(4)),
{
    BigEndian::read_u32(buf)
}

/// `byteorder::BigEndian::read_u64`: the first eight bytes of `buf` taken as
/// a big-endian integer. The outside function panics on a shorter buffer.
#[verifier::external_body]
pub(crate) fn read_u64(buf: &[u8]) -> (v: u64)
    requires
        buf@.len() >= 8,
    ensures
        v == be_value_u64(buf@.take(8)),
{
    BigEndian::read_u64(buf)
}

/// `byteorder::BigEndian::write_u16` on a fresh two-byte buffer: the buffer
/// then holds `v`, most significant byte first.
#[verifier::external_body]
pub(crate) fn write_u16(v: u16) -> (bytes: [u8; 2])
    ensures
        bytes@ == be_bytes_u16(v),
{
    let mut bytes = [0u8; 2];
    BigEndian::write_u16(&mut bytes, v);
    bytes
}

/// `byteorder::BigEndian::write_u32` on a fresh four-byte buffer: the buffer
/// then holds `v`, most significant byte first.
#[verifier::external_body]
pub(crate) fn write_u32(v: u32) -> (bytes: [u8; 4])
    ensures
        bytes@ == be_bytes_u32(v),
{
    let mut bytes = [0u8; 4];
    BigEndian::write_u32(&mut bytes, v);
    bytes
}

/// `byteorder::BigEndian::write_u64` on a fresh eight-byte buffer: the buffer
/// then holds `v`, most significant byte first.
#[verifier::external_body]
pub(crate) fn write_u64(v: u64) -> (bytes: [u8; 8])
    ensures
        bytes@ == be_bytes_u64(v),
{
    let mut bytes = [0u8; 8];
    BigEndian::write_u64(&mut bytes, v);
    bytes
}

/// A 16-bit integer is the value of its own layout.
pub proof fn lemma_u16_round_trip(v: u16)
    ensures
        be_bytes_u16(v).len() == 2,
        be_value_u16(be_bytes_u16(v)) == v,
{
    reveal(byte_at);
    reveal(be_value_u16);
}

/// A 32-bit integer is the value of its own layout.
pub proof fn lemma_u32_round_trip(v: u32)
    ensures
        be_bytes_u32(v).len() == 4,
        be_value_u32(be_bytes_u32(v)) == v,
{
    reveal(byte_at);
    reveal(be_value_u32);
}

/// A 64-bit integer is the value of its own layout.
pub proof fn lemma_u64_round_trip(v: u64)
    ensures
        be_bytes_u64(v).len() == 8,
        be_value_u64(be_bytes_u64(v)) == v,
{
    reveal(byte_at);
    reveal(be_value_u64);
    assert(v == (v / 0x100_0000_0000_0000) * 0x100_0000_0000_0000 + (v / 0x1_0000_0000_0000
        % 0x100) * 0x1_0000_0000_0000 + (v / 0x100_0000_0000 % 0x100) * 0x100_0000_0000 + (v
        / 0x1_0000_0000 % 0x100) * 0x1_0000_0000 + (v / 0x100_0000 % 0x100) * 0x100_0000 + (v
        / 0x1_0000 % 0x100) * 0x1_0000 + (v / 0x100 % 0x100) * 0x100 + v % 0x100)
        by (bit_vector);
    assert(v / 0x100_0000_0000_0000 < 0x100) by (bit_vector);
}

} // verus!
