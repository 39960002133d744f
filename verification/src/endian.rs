//! Big-endian integers on the wire.
//!
//! The conversions themselves are done by the `byteorder` crate; this module
//! says, in arithmetic, what they compute.

use byteorder::{BigEndian, ByteOrder};
use vstd::prelude::*;

verus! {

/// The 16-bit number written big-endian as the two bytes `hi`, `lo`.
pub open spec fn u16_from_be(hi: u8, lo: u8) -> u16 {
    (hi as int * 0x100 + lo as int) as u16
}

/// The 32-bit number written big-endian as the four bytes `b0` .. `b3`.
pub open spec fn u32_from_be(b0: u8, b1: u8, b2: u8, b3: u8) -> u32 {
    (b0 as int * 0x100_0000 + b1 as int * 0x1_0000 + b2 as int * 0x100 + b3 as int) as u32
}

/// The two bytes of `n`, most significant first.
pub open spec fn u16_to_be(n: u16) -> Seq<u8> {
    seq![(n / 0x100) as u8, (n % 0x100) as u8]
}

/// The four bytes of `n`, most significant first.
pub open spec fn u32_to_be(n: u32) -> Seq<u8> {
    seq![
        (n / 0x100_0000) as u8,
        (n / 0x1_0000 % 0x100) as u8,
        (n / 0x100 % 0x100) as u8,
        (n % 0x100) as u8,
    ]
}

/// Reading back the bytes of a 16-bit number gives the number.
pub proof fn lemma_u16_roundtrip(n: u16)
    ensures
        u16_to_be(n).len() == 2,
        u16_from_be(u16_to_be(n)[0], u16_to_be(n)[1]) == n,
{
}

/// Writing out the number that two bytes spell gives the two bytes.
pub proof fn lemma_u16_bytes_roundtrip(hi: u8, lo: u8)
    ensures
        u16_to_be(u16_from_be(hi, lo)) == seq![hi, lo],
{
    assert(u16_to_be(u16_from_be(hi, lo)) =~= seq![hi, lo]);
}

/// Reading back the bytes of a 32-bit number gives the number.
pub proof fn lemma_u32_roundtrip(n: u32)
    ensures
        u32_to_be(n).len() == 4,
        u32_from_be(u32_to_be(n)[0], u32_to_be(n)[1], u32_to_be(n)[2], u32_to_be(n)[3]) == n,
{
}

/// Writing out the number that four bytes spell gives the four bytes.
pub proof fn lemma_u32_bytes_roundtrip(b0: u8, b1: u8, b2: u8, b3: u8)
    ensures
        u32_to_be(u32_from_be(b0, b1, b2, b3)) == seq![b0, b1, b2, b3],
{
    assert(u32_to_be(u32_from_be(b0, b1, b2, b3)) =~= seq![b0, b1, b2, b3]);
}

/// `byteorder::BigEndian::read_u16`: the first two bytes of `buf` read as a
/// big-endian number. The crate panics on a shorter buffer, which the
/// precondition rules out.
#[verifier::external_body]
pub(crate) fn read_u16(buf: &[u8]) -> (n: u16)
    requires
        buf@.len() >= 2,
    ensures
        n == u16_from_be(buf@[0], buf@[1]),
{
    BigEndian::read_u16(buf)
}

/// `byteorder::BigEndian::read_u32`: the first four bytes of `buf` read as a
/// big-endian number. The crate panics on a shorter buffer, which the
/// precondition rules out.
#[verifier::external_body]
pub(crate) fn read_u32(buf: &[u8]) -> (n: u32)
    requires
        buf@.len() >= 4,
    ensures
        n == u32_from_be(buf@[0], buf@[1], buf@[2], buf@[3]),
{
    BigEndian::read_u32(buf)
}

/// `byteorder::BigEndian::write_u16`: overwrites the first two bytes of `buf`
/// with `n`, most significant byte first, and leaves the rest as it was. The
/// crate panics on a shorter buffer, which the precondition rules out.
#[verifier::external_body]
pub(crate) fn write_u16(buf: &mut [u8], n: u16)
    requires
        old(buf)@.len() >= 2,
    ensures
        final(buf)@ == u16_to_be(n) + old(buf)@.skip(2),
{
    BigEndian::write_u16(buf, n)
}

/// `byteorder::BigEndian::write_u32`: overwrites the first four bytes of `buf`
/// with `n`, most significant byte first, and leaves the rest as it was. The
/// crate panics on a shorter buffer, which the precondition rules out.
#[verifier::external_body]
pub(crate) fn write_u32(buf: &mut [u8], n: u32)
    requires
        old(buf)@.len() >= 4,
    ensures
        final(buf)@ == u32_to_be(n) + old(buf)@.skip(4),
{
    BigEndian::write_u32(buf, n)
}

} // verus!
