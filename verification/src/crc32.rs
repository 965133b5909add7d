//! The CRC-32/ISO-HDLC checksum used on every chunk boundary.
//!
//! The checksum itself is computed by the `crc` crate; its value is named
//! by the uninterpreted function [`crc32_of`], and every contract in the
//! library speaks of the checksum through that name.

use vstd::prelude::*;

verus! {

/// The CRC-32/ISO-HDLC checksum of a byte sequence.
///
/// The checksum is a pure function of the bytes alone; its definition is
/// left to the `crc` crate, which computes it.
pub uninterp spec fn crc32_of(bytes: Seq<u8>) -> u32;

/// Relies on `crc::Crc::<u32>::new` and `crc::Crc::<u32>::checksum` with
/// the `crc::CRC_32_ISO_HDLC` algorithm: `checksum` folds the digest over
/// the given bytes and depends on them alone.
#[verifier::external_body]
pub(crate) fn crc32_checksum(bytes: &[u8]) -> (r: u32)
    ensures
        r == crc32_of(bytes@),
{
    let algo: crc::Crc<u32> = crc::Crc::<u32>::new(&crc::CRC_32_ISO_HDLC);
    algo.checksum(bytes)
}

} // verus!
