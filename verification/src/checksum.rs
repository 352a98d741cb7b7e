//! The CRC-32 that seals every frame, computed by the `crc` crate.

use vstd::prelude::*;

verus! {

/// The IEEE CRC-32 that `crc::crc32::checksum_ieee` returns for `bytes`.
pub uninterp spec fn crc32_ieee(bytes: Seq<u8>) -> u32;

/// `crc::crc32::checksum_ieee`: the IEEE CRC-32 of `bytes`. The result is a
/// function of the bytes alone; what it is is left to the name `crc32_ieee`.
#[verifier::external_body]
pub(crate) fn checksum_ieee(bytes: &[u8]) -> (r: u32)
    ensures
        r == crc32_ieee(bytes@),
{
    crc::crc32::checksum_ieee(bytes)
}

} // verus!
