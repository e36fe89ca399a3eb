use vstd::prelude::*;

verus! {

/// The CRC-32/ISO-HDLC checksum of `bytes`, as the `crc` crate computes it.
pub uninterp spec fn crc32_iso_hdlc(bytes: Seq<u8>) -> u32;

/// `crc::Crc::<u32>::checksum` with the `CRC_32_ISO_HDLC` algorithm.
/// Trusted: the result depends on the bytes alone, and is what
/// `crc32_iso_hdlc` names.
#[verifier::external_body]
pub(crate) fn checksum(bytes: &[u8]) -> (r: u32)
    ensures
        r == crc32_iso_hdlc(bytes@),
{
    crc::Crc::<u32>::new(&crc::CRC_32_ISO_HDLC).checksum(bytes)
}

} // verus!
