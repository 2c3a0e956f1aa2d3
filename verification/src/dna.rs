//! Generation of genetic material: fresh dna and gender from the randomness
//! the caller supplies, and the per-bit blend that breeding uses.

use vstd::prelude::*;

use crate::codec::{dna_payload, push_bytes_32, push_u32_le, push_u64_le};
use crate::hashing::{blake2_128, blake2_128_of};
use crate::types::{Dna, Gender, RandomContext};

verus! {

/// The dna a context generates: the 16-byte digest of the seed combined with
/// the transaction index and the block height.
pub open spec fn generated_dna(ctx: RandomContext) -> Seq<u8> {
    blake2_128_of(dna_payload(ctx.dna_seed@, ctx.extrinsic_index, ctx.block_number))
}

/// The gender a context generates: male when the lowest bit of the first
/// random byte is clear, female when it is set.
pub open spec fn generated_gender(ctx: RandomContext) -> Gender {
    if ctx.gender_seed@[0] & 1 == 0 {
        Gender::Male
    } else {
        Gender::Female
    }
}

/// One byte of the child dna: each bit comes from `a` where the mask bit is
/// set and from `b` where it is clear.
pub open spec fn blend_byte(mask: u8, a: u8, b: u8) -> u8 {
    (mask & a) | (!mask & b)
}

/// The child dna bred from `a` and `b` under `mask`, byte for byte.
pub open spec fn blended_dna(mask: Seq<u8>, a: Seq<u8>, b: Seq<u8>) -> Seq<u8> {
    Seq::new(mask.len(), |i: int| blend_byte(mask[i], a[i], b[i]))
}

/// Blending two identical dnas returns that dna again, whatever the mask:
/// every bit of the child comes from one of two equal sources.
pub proof fn lemma_blend_identical(mask: Seq<u8>, d: Seq<u8>)
    requires
        mask.len() == d.len(),
    ensures
        blended_dna(mask, d, d) =~= d,
{
    assert forall|i: int| 0 <= i < d.len() implies blended_dna(mask, d, d)[i] == d[i] by {
        let m = mask[i];
        let x = d[i];
        assert((m & x) | (!m & x) == x) by (bit_vector);
    }
}

/// Generates a fresh dna from the supplied randomness and context, as the
/// digest of their canonical encoding.
pub fn gen_dna(ctx: &RandomContext) -> (r: Dna)
    ensures
        r@ == generated_dna(*ctx),
{
    let mut payload: Vec<u8> = Vec::new();
    push_bytes_32(&mut payload, &ctx.dna_seed);
    push_u32_le(&mut payload, ctx.extrinsic_index);
    push_u64_le(&mut payload, ctx.block_number);
    proof {
        assert(payload@ =~= dna_payload(ctx.dna_seed@, ctx.extrinsic_index, ctx.block_number));
    }
    blake2_128(&payload)
}

/// Assigns a gender from the supplied randomness: the lowest bit of its
/// first byte decides.
pub fn gen_gender(ctx: &RandomContext) -> (g: Gender)
    ensures
        g == generated_gender(*ctx),
{
    if ctx.gender_seed[0] & 1 == 0 {
        Gender::Male
    } else {
        Gender::Female
    }
}

/// Blends two parent dnas under a fresh random mask: for each bit position
/// independently, the child's bit comes from `a` where the mask bit is set
/// and from `b` where it is clear.
pub fn blend_dna(mask: &Dna, a: &Dna, b: &Dna) -> (r: Dna)
    ensures
        r@ == blended_dna(mask@, a@, b@),
{
    let mut r: Dna = [0u8; 16];
    let mut i: usize = 0;
    while i < 16
        invariant
            i <= 16,
            r@.len() == 16,
            forall|j: int| 0 <= j < i ==> r@[j] == blend_byte(mask@[j], a@[j], b@[j]),
        decreases 16 - i,
    {
        r[i] = (mask[i] & a[i]) | (!mask[i] & b[i]);
        i = i + 1;
    }
    proof {
        assert(r@ =~= blended_dna(mask@, a@, b@));
    }
    r
}

} // verus!
