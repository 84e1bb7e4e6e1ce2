//! Big-endian integers: what the bytes mean, and the decoders that read them.

use vstd::prelude::*;
use byteorder::{BigEndian, ByteOrder};

verus! {

/// The unsigned 16-bit big-endian integer stored in `s` at offset `at`.
pub open spec fn be16(s: Seq<u8>, at: int) -> int {
    s[at] * 0x100 + s[at + 1]
}

/// The unsigned 32-bit big-endian integer stored in `s` at offset `at`.
pub open spec fn be32(s: Seq<u8>, at: int) -> int {
    s[at] * 0x100_0000 + s[at + 1] * 0x1_0000 + s[at + 2] * 0x100 + s[at + 3]
}

/// The unsigned 64-bit big-endian integer stored in `s` at offset `at`.
pub open spec fn be64(s: Seq<u8>, at: int) -> int {
    be32(s, at) * 0x1_0000_0000 + be32(s, at + 4)
}

/// The number of bytes that a seek offset occupies on disk.
pub open spec fn offset_width(wide: bool) -> int {
    if wide {
        8
    } else {
        4
    }
}

/// The seek offset stored in `s` at `at`: 64 bits when `wide`, else 32 bits
/// extended with zeros.
pub open spec fn be_offset(s: Seq<u8>, at: int, wide: bool) -> int {
    if wide {
        be64(s, at)
    } else {
        be32(s, at)
    }
}

/// Calls `byteorder::BigEndian::read_u16`, which panics on fewer than two
/// bytes. Trusted: the result is the big-endian value of the first two bytes.
#[verifier::external_body]
pub(crate) fn be_u16(buf: &[u8]) -> (r: u16)
    requires
        buf@.len() >= 2,
    ensures
        r == be16(buf@, 0),
{
    BigEndian::read_u16(buf)
}

/// Calls `byteorder::BigEndian::read_u32`, which panics on fewer than four
/// bytes. Trusted: the result is the big-endian value of the first four bytes.
#[verifier::external_body]
pub(crate) fn be_u32(buf: &[u8]) -> (r: u32)
    requires
        buf@.len() >= 4,
    ensures
        r == be32(buf@, 0),
{
    BigEndian::read_u32(buf)
}

/// Calls `byteorder::BigEndian::read_u64`, which panics on fewer than eight
/// bytes. Trusted: the result is the big-endian value of the first eight bytes.
#[verifier::external_body]
pub(crate) fn be_u64(buf: &[u8]) -> (r: u64)
    requires
        buf@.len() >= 8,
    ensures
        r == be64(buf@, 0),
{
    BigEndian::read_u64(buf)
}

} // verus!
