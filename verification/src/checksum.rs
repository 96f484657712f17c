use vstd::prelude::*;

verus! {

/// A 128-bit checksum, as stored in commit slots and b-tree headers.
pub type Checksum = u128;

/// The XXH3 128-bit hash with seed 0 of a byte sequence.
pub uninterp spec fn xxh3_128_seed0(data: Seq<u8>) -> u128;

/// Checksum of `data`: calls `xxhash_rust::xxh3::xxh3_128_with_seed(data, 0)`.
/// The contract claims only that the result is the XXH3-128 hash of the bytes,
/// a function of the bytes alone; what that hash is, is not stated.
#[verifier::external_body]
pub(crate) fn xxh3_checksum(data: &[u8]) -> (c: Checksum)
    ensures
        c == xxh3_128_seed0(data@),
{
    xxhash_rust::xxh3::xxh3_128_with_seed(data, 0)
}

} // verus!
