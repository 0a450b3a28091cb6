//! Little-endian byte order, through the `byteorder` crate.

use vstd::prelude::*;

verus! {

/// The number that the bytes `s` stand for in little-endian order: the first
/// byte is the least significant one.
pub open spec fn le_value(s: Seq<u8>) -> nat
    decreases s.len(),
{
    if s.len() == 0 {
        0
    } else {
        s[0] as nat + 256 * le_value(s.drop_first())
    }
}

/// `byteorder::LittleEndian::read_u16`: the first two bytes of `buf` read in
/// little-endian order. The source panics when `buf` is shorter than two bytes.
#[verifier::external_body]
pub(crate) fn read_le_u16(buf: &[u8]) -> (r: u16)
    requires
        buf@.len() >= 2,
    ensures
        r as nat == le_value(buf@.take(2)),
{
    <byteorder::LittleEndian as byteorder::ByteOrder>::read_u16(buf)
}

/// `byteorder::LittleEndian::read_u32`: the first four bytes of `buf` read in
/// little-endian order. The source panics when `buf` is shorter than four bytes.
#[verifier::external_body]
pub(crate) fn read_le_u32(buf: &[u8]) -> (r: u32)
    requires
        buf@.len() >= 4,
    ensures
        r as nat == le_value(buf@.take(4)),
{
    <byteorder::LittleEndian as byteorder::ByteOrder>::read_u32(buf)
}

/// `byteorder::LittleEndian::read_u64`: the first eight bytes of `buf` read in
/// little-endian order. The source panics when `buf` is shorter than eight bytes.
#[verifier::external_body]
pub(crate) fn read_le_u64(buf: &[u8]) -> (r: u64)
    requires
        buf@.len() >= 8,
    ensures
        r as nat == le_value(buf@.take(8)),
{
    <byteorder::LittleEndian as byteorder::ByteOrder>::read_u64(buf)
}

/// `byteorder::LittleEndian::write_u16`, into a fresh two-byte buffer: the
/// source copies `n.to_le_bytes()` over the first two bytes, so the buffer
/// holds `n` in little-endian order.
#[verifier::external_body]
pub(crate) fn le_bytes_u16(n: u16) -> (b: [u8; 2])
    ensures
        le_value(b@) == n as nat,
{
    let mut b = [0u8; 2];
    <byteorder::LittleEndian as byteorder::ByteOrder>::write_u16(&mut b, n);
    b
}

/// `byteorder::LittleEndian::write_u64`, into a fresh eight-byte buffer: the
/// source copies `n.to_le_bytes()` over the first eight bytes, so the buffer
/// holds `n` in little-endian order.
#[verifier::external_body]
pub(crate) fn le_bytes_u64(n: u64) -> (b: [u8; 8])
    ensures
        le_value(b@) == n as nat,
{
    let mut b = [0u8; 8];
    <byteorder::LittleEndian as byteorder::ByteOrder>::write_u64(&mut b, n);
    b
}

/// The value of two little-endian bytes.
pub proof fn lemma_le_value_2(s: Seq<u8>)
    requires
        s.len() == 2,
    ensures
        le_value(s) == s[0] as nat + 256 * s[1] as nat,
{
    reveal_with_fuel(le_value, 3);
}

/// The value of four little-endian bytes.
pub proof fn lemma_le_value_4(s: Seq<u8>)
    requires
        s.len() == 4,
    ensures
        le_value(s) == s[0] as nat + 0x100 * s[1] as nat + 0x1_0000 * s[2] as nat + 0x100_0000
            * s[3] as nat,
{
    reveal_with_fuel(le_value, 5);
    assert(s.drop_first().drop_first() == s.subrange(2, 4));
    assert(s.subrange(2, 4).drop_first() == s.subrange(3, 4));
    assert(s.subrange(3, 4).drop_first() == Seq::<u8>::empty());
}

} // verus!
