use vstd::prelude::*;

verus! {

/// The CRC-16/MODBUS code of a byte sequence (reflected polynomial 0xA001,
/// initial value 0xFFFF, no final XOR), as the `crc` crate computes it.
pub uninterp spec fn modbus_crc(bytes: Seq<u8>) -> u16;

/// Relies on `crc::Crc::<u16>::checksum` with the `crc::CRC_16_MODBUS`
/// algorithm: a pure function of the bytes it is given, total on every slice.
#[verifier::external_body]
fn crc16_modbus(bytes: &[u8]) -> (r: u16)
    ensures
        r == modbus_crc(bytes@),
{
    crc::Crc::<u16>::new(&crc::CRC_16_MODBUS).checksum(bytes)
}

/// The 16-bit integrity code of `bytes`.
pub fn checksum(bytes: &[u8]) -> (r: u16)
    ensures
        r == modbus_crc(bytes@),
{
    crc16_modbus(bytes)
}

/// The checksum is a function of the bytes alone: equal inputs give equal
/// codes, whenever and however often it is computed.
pub proof fn lemma_checksum_deterministic(a: Seq<u8>, b: Seq<u8>)
    requires
        a == b,
    ensures
        modbus_crc(a) == modbus_crc(b),
{
}

} // verus!
