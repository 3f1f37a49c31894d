//! The per-row digest and the rule that folds it into the running checksum.

use vstd::prelude::*;

verus! {

/// The CRC64 of a byte sequence, as the `crc` crate's `crc64::ECMA` digest
/// computes it: the ECMA-182 polynomial in that crate's reflected,
/// complemented convention.
///
/// The value is fixed by the bytes alone; what it is on given bytes is left
/// to the `crc` crate, which implements the function.
pub uninterp spec fn crc64_ecma(bytes: Seq<u8>) -> u64;

/// Relies on `crc::crc64`: `Digest::new(crc::crc64::ECMA)` computes CRC64
/// with the ECMA-182 polynomial starting from an all-zero state, and
/// `Hasher64::write` streams bytes (its `update` folds the running value
/// byte by byte), so writing the key and then the value digests their
/// concatenation, with no separator and no length prefix.
#[verifier::external_body]
fn crc64_ecma_pair(k: &[u8], v: &[u8]) -> (r: u64)
    ensures
        r == crc64_ecma(k@ + v@),
{
    let mut digest = crc::crc64::Digest::new(crc::crc64::ECMA);
    crc::crc64::Hasher64::write(&mut digest, k);
    crc::crc64::Hasher64::write(&mut digest, v);
    crc::crc64::Hasher64::sum64(&digest)
}

/// Folds one row into the running checksum: the row's digest is the CRC64
/// of the key bytes immediately followed by the value bytes, and it is
/// combined into the accumulator by bitwise XOR.
pub fn checksum_crc64_xor(checksum: u64, k: &[u8], v: &[u8]) -> (r: u64)
    ensures
        r == checksum ^ crc64_ecma(k@ + v@),
{
    let digest: u64 = crc64_ecma_pair(k, v);
    checksum ^ digest
}

} // verus!
