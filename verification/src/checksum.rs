//! The CRC-32 checksum that guards a chunk's type and data.

use crc::{Crc, CRC_32_ISO_HDLC};
use vstd::prelude::*;

verus! {

/// The CRC-32/ISO-HDLC checksum of `bytes`: the one that PNG and zlib use.
///
/// Its value is whatever `crc::Crc::<u32>::checksum` computes under the
/// algorithm `crc::CRC_32_ISO_HDLC`. Nothing is stated about it beyond that it
/// depends on the bytes alone.
pub uninterp spec fn crc32(bytes: Seq<u8>) -> u32;

/// Computes the checksum of `bytes`.
///
/// Trusted: calls `crc::Crc::<u32>::new` with `crc::CRC_32_ISO_HDLC` and then
/// `checksum` on the result, and claims only that what comes back is
/// [`crc32`] of the bytes. The call reads nothing but its argument and the
/// algorithm's constant table, and it returns for every slice.
#[verifier::external_body]
pub(crate) fn checksum(bytes: &[u8]) -> (sum: u32)
    ensures
        sum == crc32(bytes@),
{
    Crc::<u32>::new(&CRC_32_ISO_HDLC).checksum(bytes)
}

} // verus!
