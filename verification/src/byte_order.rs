use vstd::prelude::*;
use byteorder::{BigEndian, ByteOrder, LittleEndian};

verus! {

/// `<BigEndian as ByteOrder>::read_u16` of the byteorder crate: the first two
/// bytes of `buf` read as an unsigned integer, most significant byte first.
/// It panics when `buf` holds fewer than two bytes, which `requires` rules out.
#[verifier::external_body]
pub(crate) fn read_u16_be(buf: &[u8]) -> (r: u16)
    requires
        buf@.len() >= 2,
    ensures
        r == buf@[0] * 256 + buf@[1],
{
    BigEndian::read_u16(buf)
}

/// `<LittleEndian as ByteOrder>::read_u16` of the byteorder crate: the first
/// two bytes of `buf` read as an unsigned integer, least significant byte
/// first. It panics when `buf` holds fewer than two bytes, which `requires`
/// rules out.
#[verifier::external_body]
pub(crate) fn read_u16_le(buf: &[u8]) -> (r: u16)
    requires
        buf@.len() >= 2,
    ensures
        r == buf@[0] + buf@[1] * 256,
{
    LittleEndian::read_u16(buf)
}

} // verus!
