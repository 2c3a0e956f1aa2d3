use kitty_registry::{Error, Ledger, Pallet, RandomContext};

// The test chain's configuration: accounts 1 and 2 start with 200 and 500
// of free balance, every account may own at most 3 kitties, and each owned
// kitty bonds a deposit of 100.
fn new_world() -> (Pallet, Ledger) {
    let pallet = Pallet::new(3, 100);
    let mut ledger = Ledger::new();
    assert!(ledger.deposit(1, 200));
    assert!(ledger.deposit(2, 500));
    (pallet, ledger)
}

// The randomness source of the test chain yields all-zero material in its
// early blocks, so only the block height varies the generated dna.
fn ctx(block_number: u64) -> RandomContext {
    RandomContext { dna_seed: [0; 32], gender_seed: [0; 32], extrinsic_index: 0, block_number }
}

#[test]
fn test_create_kitty() {
    let (mut pallet, mut ledger) = new_world();
    assert!(pallet.create_kitty(&mut ledger, 1, &ctx(1)).is_ok());
    assert!(pallet.create_kitty(&mut ledger, 1, &ctx(2)).is_ok());
    // A third creation fails: the free balance no longer covers the deposit.
    assert_eq!(pallet.create_kitty(&mut ledger, 1, &ctx(3)), Err(Error::ReserveBalanceFailed));

    assert!(pallet.create_kitty(&mut ledger, 2, &ctx(3)).is_ok());
    assert!(pallet.create_kitty(&mut ledger, 2, &ctx(4)).is_ok());
    assert!(pallet.create_kitty(&mut ledger, 2, &ctx(5)).is_ok());
    // A fourth creation fails: the account is at its ownership cap.
    assert_eq!(pallet.create_kitty(&mut ledger, 2, &ctx(6)), Err(Error::ExceedMaxKittyOwned));
}

#[test]
fn test_set_price() {
    let (mut pallet, mut ledger) = new_world();
    pallet.create_kitty(&mut ledger, 1, &ctx(1)).unwrap();
    assert_eq!(pallet.kitty_count(), 1);
    let kitty_id = pallet.owned_by(1)[0];
    // Account 2 does not own the kitty.
    assert_eq!(pallet.set_price(2, &kitty_id, Some(100)), Err(Error::NotKittyOwner));
    assert!(pallet.set_price(1, &kitty_id, Some(100)).is_ok());
    let kitty = pallet.get_kitty(&kitty_id).unwrap();
    assert_eq!(kitty.price, Some(100));
}

#[test]
fn test_transfer() {
    let (mut pallet, mut ledger) = new_world();
    pallet.create_kitty(&mut ledger, 1, &ctx(1)).unwrap();
    let kitty_id = pallet.owned_by(1)[0];
    assert_eq!(pallet.transfer(&mut ledger, 1, &kitty_id, 1), Err(Error::TransferToSelf));
    assert_eq!(pallet.transfer(&mut ledger, 2, &kitty_id, 1), Err(Error::NotKittyOwner));
    assert!(pallet.transfer(&mut ledger, 1, &kitty_id, 2).is_ok());
    let kitty_id = pallet.owned_by(2)[0];
    assert_eq!(pallet.get_kitty(&kitty_id).unwrap().owner, 2);
}

#[test]
fn test_buy_kitty() {
    let (mut pallet, mut ledger) = new_world();
    pallet.create_kitty(&mut ledger, 2, &ctx(1)).unwrap();
    let kitty_id = pallet.owned_by(2)[0];
    assert!(pallet.set_price(2, &kitty_id, Some(90)).is_ok());
    // The owner may not buy its own kitty.
    assert_eq!(pallet.buy_kitty(&mut ledger, 2, &kitty_id, 300), Err(Error::BuyerIsKittyOwner));
    // A bid below the ask is rejected.
    assert_eq!(pallet.buy_kitty(&mut ledger, 1, &kitty_id, 50), Err(Error::KittyBidPriceTooLow));
    // The buyer's balance does not cover this bid.
    assert_eq!(pallet.buy_kitty(&mut ledger, 1, &kitty_id, 300), Err(Error::NotEnoughBalance));
    // After paying 120, nothing would remain for the deposit.
    assert_eq!(pallet.buy_kitty(&mut ledger, 1, &kitty_id, 120), Err(Error::ReserveBalanceFailed));
    assert!(pallet.buy_kitty(&mut ledger, 1, &kitty_id, 100).is_ok());
    let kitty_id = pallet.owned_by(1)[0];
    assert_eq!(pallet.get_kitty(&kitty_id).unwrap().owner, 1);
}

#[test]
fn test_breed_kitty() {
    let (mut pallet, mut ledger) = new_world();
    assert!(pallet.create_kitty(&mut ledger, 2, &ctx(1)).is_ok());
    let kitty_id_owner2_1 = pallet.owned_by(2)[0];
    assert!(pallet.create_kitty(&mut ledger, 1, &ctx(1)).is_ok());
    let kitty_id_owner1_1 = pallet.owned_by(1)[0];
    assert!(pallet.create_kitty(&mut ledger, 2, &ctx(2)).is_ok());
    let kitty_id_owner2_2 = pallet.owned_by(2)[1];
    // One parent belongs to account 1, so account 2 may not breed from it.
    assert_eq!(
        pallet.breed_kitty(&mut ledger, 2, &kitty_id_owner1_1, &kitty_id_owner2_1, &ctx(2)),
        Err(Error::NotKittyOwner)
    );
    assert!(
        pallet.breed_kitty(&mut ledger, 2, &kitty_id_owner2_1, &kitty_id_owner2_2, &ctx(2)).is_ok()
    );
    let kitty_id_owner2_3 = pallet.owned_by(2)[2];
    assert_eq!(pallet.get_kitty(&kitty_id_owner2_3).unwrap().owner, 2);
}
