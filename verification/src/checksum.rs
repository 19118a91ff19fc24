use vstd::prelude::*;

verus! {

/// The CRC-32/ISO-HDLC checksum of `bytes`: the one of PNG, zlib and Ethernet.
pub uninterp spec fn crc32_iso_hdlc(bytes: Seq<u8>) -> u32;

/// `crc::Crc::<u32>::checksum` with the algorithm `crc::CRC_32_ISO_HDLC`.
///
/// Believed, not proved: the call gives the CRC-32/ISO-HDLC checksum of the
/// bytes, which depends on nothing but them.
#[verifier::external_body]
pub(crate) fn checksum(bytes: &[u8]) -> (r: u32)
    ensures
        r == crc32_iso_hdlc(bytes@),
{
    crc::Crc::<u32>::new(&crc::CRC_32_ISO_HDLC).checksum(bytes)
}

} // verus!
