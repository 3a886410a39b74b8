//! CRC-32 checksums over a buffer with one four-byte field left out.

use vstd::prelude::*;

verus! {

broadcast use vstd::slice::group_slice_axioms;

/// The CRC-32 (IEEE) checksum of a byte sequence.
pub uninterp spec fn crc32(bytes: Seq<u8>) -> u32;

/// Calls `crc32fast::hash`, which computes the CRC-32 of a byte slice.
/// Nothing is proved of it: the contract only names the value it returns,
/// a function of the bytes handed in and of nothing else.
#[verifier::external_body]
fn crc32_of(bytes: &[u8]) -> (sum: u32)
    ensures
        sum == crc32(bytes@),
{
    crc32fast::hash(bytes)
}

/// What a checksum stored at `field` covers: every byte of `bytes` except the
/// four bytes of the field itself.
pub open spec fn covered(bytes: Seq<u8>, field: int) -> Seq<u8> {
    bytes.subrange(0, field) + bytes.subrange(field + 4, bytes.len() as int)
}

/// The checksum of `bytes` with the four-byte field at `field` left out.
pub fn checksum_without_field(bytes: &[u8], field: usize) -> (sum: u32)
    requires
        field + 4 <= bytes.len(),
    ensures
        sum == crc32(covered(bytes@, field as int)),
{
    let n: usize = bytes.len();
    let mut kept: Vec<u8> = Vec::with_capacity(n - 4);
    kept.extend_from_slice(&bytes[0..field]);
    kept.extend_from_slice(&bytes[field + 4..n]);
    assert(kept@ =~= covered(bytes@, field as int));
    crc32_of(kept.as_slice())
}

} // verus!
