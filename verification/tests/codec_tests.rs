use kitty_registry::codec::{compute_kitty_id, encode_kitty, push_u128_le, push_u32_le, push_u64_le};
use kitty_registry::{Gender, Kitty};

#[test]
fn little_endian_digits_are_exact() {
    let mut out: Vec<u8> = Vec::new();
    push_u32_le(&mut out, 0x0102_0304);
    assert_eq!(out, vec![4, 3, 2, 1]);

    let mut out: Vec<u8> = Vec::new();
    push_u64_le(&mut out, 0x0102_0304_0506_0708);
    assert_eq!(out, vec![8, 7, 6, 5, 4, 3, 2, 1]);

    let mut out: Vec<u8> = Vec::new();
    push_u128_le(&mut out, 1);
    assert_eq!(out, vec![1, 0, 0, 0, 0, 0, 0, 0, 0, 0, 0, 0, 0, 0, 0, 0]);
}

#[test]
fn kitty_encoding_is_exact() {
    let kitty = Kitty {
        dna: [9; 16],
        price: Some(2),
        gender: Gender::Female,
        owner: 3,
    };
    let mut expected: Vec<u8> = vec![9; 16];
    expected.push(1); // the price is present
    expected.extend_from_slice(&[2, 0, 0, 0, 0, 0, 0, 0, 0, 0, 0, 0, 0, 0, 0, 0]);
    expected.push(1); // female
    expected.extend_from_slice(&[3, 0, 0, 0, 0, 0, 0, 0]);
    assert_eq!(encode_kitty(&kitty), expected);

    let unlisted = Kitty { price: None, ..kitty };
    let mut expected: Vec<u8> = vec![9; 16];
    expected.push(0); // no price
    expected.push(1);
    expected.extend_from_slice(&[3, 0, 0, 0, 0, 0, 0, 0]);
    assert_eq!(encode_kitty(&unlisted), expected);
}

#[test]
fn identifiers_are_content_hashes() {
    let kitty = Kitty { dna: [5; 16], price: None, gender: Gender::Male, owner: 1 };
    // Deterministic: the same record always hashes to the same identifier.
    assert_eq!(compute_kitty_id(&kitty), compute_kitty_id(&kitty));
    // Sensitive: any field change moves the identifier.
    let other = Kitty { owner: 2, ..kitty };
    assert_ne!(compute_kitty_id(&kitty), compute_kitty_id(&other));
    let other = Kitty { dna: [6; 16], ..kitty };
    assert_ne!(compute_kitty_id(&kitty), compute_kitty_id(&other));
    let other = Kitty { gender: Gender::Female, ..kitty };
    assert_ne!(compute_kitty_id(&kitty), compute_kitty_id(&other));
    // The digest of the canonical encoding is the identifier.
    assert_eq!(
        compute_kitty_id(&kitty).to_vec(),
        sp_core_hashing::blake2_256(&encode_kitty(&kitty)).to_vec()
    );
}
