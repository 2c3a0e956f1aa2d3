//! The two Blake2b digests the registry relies on. Their values are a
//! function of the input bytes alone; the library names them and never
//! restates the algorithm.

use vstd::prelude::*;

verus! {

/// The 16-byte Blake2b digest of `data`, as `sp_core_hashing::blake2_128`
/// computes it.
pub uninterp spec fn blake2_128_of(data: Seq<u8>) -> Seq<u8>;

/// The 32-byte Blake2b digest of `data`, as `sp_core_hashing::blake2_256`
/// computes it.
pub uninterp spec fn blake2_256_of(data: Seq<u8>) -> Seq<u8>;

/// Relies on sp_core_hashing::blake2_128: a 16-byte Blake2b digest that
/// depends on the input bytes alone.
#[verifier::external_body]
pub(crate) fn blake2_128(data: &Vec<u8>) -> (r: [u8; 16])
    ensures
        r@ == blake2_128_of(data@),
{
    sp_core_hashing::blake2_128(data.as_slice())
}

/// Relies on sp_core_hashing::blake2_256: a 32-byte Blake2b digest that
/// depends on the input bytes alone.
#[verifier::external_body]
pub(crate) fn blake2_256(data: &Vec<u8>) -> (r: [u8; 32])
    ensures
        r@ == blake2_256_of(data@),
{
    sp_core_hashing::blake2_256(data.as_slice())
}

} // verus!
