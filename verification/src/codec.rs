//! Canonical byte encoding of the values the registry hashes: little-endian
//! integers, the optional price, the gender tag, and the full kitty record.
//! The identifier of a kitty is the 32-byte digest of this encoding, so the
//! encoding pins the identifier down across implementations.

use vstd::prelude::*;

use crate::hashing::{blake2_256, blake2_256_of};
use crate::types::{AccountId, Balance, Dna, Gender, Kitty, KittyId};

verus! {

/// The four little-endian base-256 digits of `x`.
pub open spec fn u32_le_bytes(x: u32) -> Seq<u8> {
    seq![
        (x % 0x100) as u8,
        ((x / 0x100) % 0x100) as u8,
        ((x / 0x1_0000) % 0x100) as u8,
        ((x / 0x100_0000) % 0x100) as u8,
    ]
}

/// The eight little-endian base-256 digits of `x`.
pub open spec fn u64_le_bytes(x: u64) -> Seq<u8> {
    seq![
        (x % 0x100) as u8,
        ((x / 0x100) % 0x100) as u8,
        ((x / 0x1_0000) % 0x100) as u8,
        ((x / 0x100_0000) % 0x100) as u8,
        ((x / 0x1_0000_0000) % 0x100) as u8,
        ((x / 0x100_0000_0000) % 0x100) as u8,
        ((x / 0x1_0000_0000_0000) % 0x100) as u8,
        ((x / 0x100_0000_0000_0000) % 0x100) as u8,
    ]
}

/// The sixteen little-endian base-256 digits of `x`.
pub open spec fn u128_le_bytes(x: u128) -> Seq<u8> {
    seq![
        (x % 0x100) as u8,
        ((x / 0x100) % 0x100) as u8,
        ((x / 0x1_0000) % 0x100) as u8,
        ((x / 0x100_0000) % 0x100) as u8,
        ((x / 0x1_0000_0000) % 0x100) as u8,
        ((x / 0x100_0000_0000) % 0x100) as u8,
        ((x / 0x1_0000_0000_0000) % 0x100) as u8,
        ((x / 0x100_0000_0000_0000) % 0x100) as u8,
        ((x / 0x1_0000_0000_0000_0000) % 0x100) as u8,
        ((x / 0x100_0000_0000_0000_0000) % 0x100) as u8,
        ((x / 0x1_0000_0000_0000_0000_0000) % 0x100) as u8,
        ((x / 0x100_0000_0000_0000_0000_0000) % 0x100) as u8,
        ((x / 0x1_0000_0000_0000_0000_0000_0000) % 0x100) as u8,
        ((x / 0x100_0000_0000_0000_0000_0000_0000) % 0x100) as u8,
        ((x / 0x1_0000_0000_0000_0000_0000_0000_0000) % 0x100) as u8,
        ((x / 0x100_0000_0000_0000_0000_0000_0000_0000) % 0x100) as u8,
    ]
}

/// Encoding of an optional price: a zero byte for `None`, a one byte followed
/// by the little-endian amount for `Some`.
pub open spec fn price_bytes(price: Option<Balance>) -> Seq<u8> {
    match price {
        None => seq![0u8],
        Some(p) => seq![1u8] + u128_le_bytes(p),
    }
}

/// Encoding of a gender: its variant index as one byte.
pub open spec fn gender_bytes(gender: Gender) -> Seq<u8> {
    match gender {
        Gender::Male => seq![0u8],
        Gender::Female => seq![1u8],
    }
}

/// Canonical encoding of a full kitty record, in field order.
pub open spec fn kitty_bytes(dna: Seq<u8>, price: Option<Balance>, gender: Gender, owner: AccountId) -> Seq<u8> {
    dna + price_bytes(price) + gender_bytes(gender) + u64_le_bytes(owner)
}

/// The identifier a kitty record receives: the 32-byte digest of its
/// canonical encoding.
pub open spec fn kitty_id_of(k: Kitty) -> Seq<u8> {
    blake2_256_of(kitty_bytes(k.dna@, k.price, k.gender, k.owner))
}

/// The payload hashed to generate a fresh dna: the random seed, then the
/// transaction index, then the block height.
pub open spec fn dna_payload(seed: Seq<u8>, extrinsic_index: u32, block_number: u64) -> Seq<u8> {
    seed + u32_le_bytes(extrinsic_index) + u64_le_bytes(block_number)
}

/// Appends the four little-endian digits of `x` to `out`.
pub fn push_u32_le(out: &mut Vec<u8>, x: u32)
    ensures
        final(out)@ == old(out)@ + u32_le_bytes(x),
{
    out.push((x % 0x100) as u8);
    out.push(((x / 0x100) % 0x100) as u8);
    out.push(((x / 0x1_0000) % 0x100) as u8);
    out.push(((x / 0x100_0000) % 0x100) as u8);
    proof {
        assert(out@ =~= old(out)@ + u32_le_bytes(x));
    }
}

/// Appends the eight little-endian digits of `x` to `out`.
pub fn push_u64_le(out: &mut Vec<u8>, x: u64)
    ensures
        final(out)@ == old(out)@ + u64_le_bytes(x),
{
    out.push((x % 0x100) as u8);
    out.push(((x / 0x100) % 0x100) as u8);
    out.push(((x / 0x1_0000) % 0x100) as u8);
    out.push(((x / 0x100_0000) % 0x100) as u8);
    out.push(((x / 0x1_0000_0000) % 0x100) as u8);
    out.push(((x / 0x100_0000_0000) % 0x100) as u8);
    out.push(((x / 0x1_0000_0000_0000) % 0x100) as u8);
    out.push(((x / 0x100_0000_0000_0000) % 0x100) as u8);
    proof {
        assert(out@ =~= old(out)@ + u64_le_bytes(x));
    }
}

/// Appends the sixteen little-endian digits of `x` to `out`.
pub fn push_u128_le(out: &mut Vec<u8>, x: u128)
    ensures
        final(out)@ == old(out)@ + u128_le_bytes(x),
{
    out.push((x % 0x100) as u8);
    out.push(((x / 0x100) % 0x100) as u8);
    out.push(((x / 0x1_0000) % 0x100) as u8);
    out.push(((x / 0x100_0000) % 0x100) as u8);
    out.push(((x / 0x1_0000_0000) % 0x100) as u8);
    out.push(((x / 0x100_0000_0000) % 0x100) as u8);
    out.push(((x / 0x1_0000_0000_0000) % 0x100) as u8);
    out.push(((x / 0x100_0000_0000_0000) % 0x100) as u8);
    out.push(((x / 0x1_0000_0000_0000_0000) % 0x100) as u8);
    out.push(((x / 0x100_0000_0000_0000_0000) % 0x100) as u8);
    out.push(((x / 0x1_0000_0000_0000_0000_0000) % 0x100) as u8);
    out.push(((x / 0x100_0000_0000_0000_0000_0000) % 0x100) as u8);
    out.push(((x / 0x1_0000_0000_0000_0000_0000_0000) % 0x100) as u8);
    out.push(((x / 0x100_0000_0000_0000_0000_0000_0000) % 0x100) as u8);
    out.push(((x / 0x1_0000_0000_0000_0000_0000_0000_0000) % 0x100) as u8);
    out.push(((x / 0x100_0000_0000_0000_0000_0000_0000_0000) % 0x100) as u8);
    proof {
        assert(out@ =~= old(out)@ + u128_le_bytes(x));
    }
}

/// Appends the bytes of a 32-byte value to `out`.
pub fn push_bytes_32(out: &mut Vec<u8>, bytes: &[u8; 32])
    ensures
        final(out)@ == old(out)@ + bytes@,
{
    let mut i: usize = 0;
    while i < 32
        invariant
            i <= 32,
            out@ == old(out)@ + bytes@.subrange(0, i as int),
        decreases 32 - i,
    {
        out.push(bytes[i]);
        i = i + 1;
        proof {
            assert(out@ =~= old(out)@ + bytes@.subrange(0, i as int));
        }
    }
    proof {
        assert(bytes@.subrange(0, 32) =~= bytes@);
    }
}

/// Appends the bytes of a 16-byte value to `out`.
pub fn push_bytes_16(out: &mut Vec<u8>, bytes: &[u8; 16])
    ensures
        final(out)@ == old(out)@ + bytes@,
{
    let mut i: usize = 0;
    while i < 16
        invariant
            i <= 16,
            out@ == old(out)@ + bytes@.subrange(0, i as int),
        decreases 16 - i,
    {
        out.push(bytes[i]);
        i = i + 1;
        proof {
            assert(out@ =~= old(out)@ + bytes@.subrange(0, i as int));
        }
    }
    proof {
        assert(bytes@.subrange(0, 16) =~= bytes@);
    }
}

/// Canonical encoding of a kitty record, as `kitty_bytes` states it.
pub fn encode_kitty(k: &Kitty) -> (r: Vec<u8>)
    ensures
        r@ == kitty_bytes(k.dna@, k.price, k.gender, k.owner),
{
    let mut out: Vec<u8> = Vec::new();
    push_bytes_16(&mut out, &k.dna);
    match k.price {
        None => { out.push(0u8); }
        Some(p) => {
            out.push(1u8);
            push_u128_le(&mut out, p);
        }
    }
    match k.gender {
        Gender::Male => { out.push(0u8); }
        Gender::Female => { out.push(1u8); }
    }
    push_u64_le(&mut out, k.owner);
    proof {
        assert(out@ =~= kitty_bytes(k.dna@, k.price, k.gender, k.owner));
    }
    out
}

/// Computes the identifier of a kitty record: the digest of its canonical
/// encoding.
pub fn compute_kitty_id(k: &Kitty) -> (id: KittyId)
    ensures
        id@ == kitty_id_of(*k),
{
    let bytes = encode_kitty(k);
    blake2_256(&bytes)
}

} // verus!
