//! The CRC-32 that guards each chunk.

use vstd::prelude::*;

verus! {

/// The CRC-32/ISO-HDLC checksum of a byte string: the one that zlib and PNG
/// use, with the reflected polynomial `0xEDB88320`, initial value and final
/// xor `0xFFFFFFFF`. The catalogue of the `crc` crate defines it; this crate
/// only gives it a name.
pub uninterp spec fn crc32_iso_hdlc(bytes: Seq<u8>) -> u32;

/// Trusted: `crc::Crc::<u32>::new(&crc::CRC_32_ISO_HDLC).checksum(bytes)`.
/// The call computes a pure function of the bytes and never fails; the
/// contract says that its result is the checksum named above.
#[verifier::external_body]
pub(crate) fn checksum(bytes: &[u8]) -> (sum: u32)
    ensures
        sum == crc32_iso_hdlc(bytes@),
{
    crc::Crc::<u32>::new(&crc::CRC_32_ISO_HDLC).checksum(bytes)
}

} // verus!
