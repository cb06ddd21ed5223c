//! The CRC-32C checksum that guards every stored structure.

use vstd::prelude::*;

verus! {

/// What `crc32c::crc32c_append` returns for a previous checksum and a byte string.
pub uninterp spec fn crc32c_appended(crc: u32, data: Seq<u8>) -> u32;

/// The CRC-32C of a byte string: the checksum of an empty prefix, carried on over the string.
pub open spec fn crc32c_of(data: Seq<u8>) -> u32 {
    crc32c_appended(0, data)
}

/// Calls `crc32c::crc32c_append`. The result is a function of the previous checksum and the
/// bytes alone; which function is left to the crate.
#[verifier::external_body]
pub(crate) fn crc32c_extend(crc: u32, data: &[u8]) -> (extended: u32)
    ensures
        extended == crc32c_appended(crc, data@),
{
    crc32c::crc32c_append(crc, data)
}

/// Calls `crc32c::crc32c`, which carries the checksum 0 on over the bytes.
#[verifier::external_body]
pub(crate) fn crc32c_checksum(data: &[u8]) -> (checksum: u32)
    ensures
        checksum == crc32c_appended(0, data@),
{
    crc32c::crc32c(data)
}

/// The checksum of a byte string.
pub fn checksum(data: &[u8]) -> (value: u32)
    ensures
        value == crc32c_of(data@),
{
    crc32c_checksum(data)
}

} // verus!
