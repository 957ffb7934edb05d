use vstd::prelude::*;

verus! {

/// The CRC-32 of a byte sequence (the zlib / PNG parameterisation:
/// polynomial 0x04C11DB7, reflected in and out, initial value and final
/// XOR 0xFFFFFFFF).
pub uninterp spec fn crc32_of(bytes: Seq<u8>) -> u32;

/// Relies on crc's `Crc::<u32>::checksum` with the catalogue's
/// `CRC_32_ISO_HDLC` parameters: the result depends on the bytes alone.
#[verifier::external_body]
fn crc32_iso_hdlc(bytes: &[u8]) -> (r: u32)
    ensures
        r == crc32_of(bytes@),
{
    crc::Crc::<u32>::new(&crc::CRC_32_ISO_HDLC).checksum(bytes)
}

/// The CRC-32 that PNG stores after each chunk, over the given bytes.
pub fn crc32(bytes: &[u8]) -> (r: u32)
    ensures
        r == crc32_of(bytes@),
{
    crc32_iso_hdlc(bytes)
}

} // verus!
