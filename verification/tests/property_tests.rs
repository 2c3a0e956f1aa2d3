use kitty_registry::{Error, Event, Gender, Ledger, Pallet, RandomContext};

fn new_world() -> (Pallet, Ledger) {
    let pallet = Pallet::new(3, 100);
    let mut ledger = Ledger::new();
    assert!(ledger.deposit(1, 200));
    assert!(ledger.deposit(2, 500));
    (pallet, ledger)
}

fn ctx(block_number: u64) -> RandomContext {
    RandomContext { dna_seed: [0; 32], gender_seed: [0; 32], extrinsic_index: 0, block_number }
}

#[test]
fn mint_increments_count_and_indexes_once() {
    let (mut pallet, mut ledger) = new_world();
    assert_eq!(pallet.kitty_count(), 0);
    let ev = pallet.create_kitty(&mut ledger, 1, &ctx(1)).unwrap();
    assert_eq!(pallet.kitty_count(), 1);
    let id = pallet.owned_by(1)[0];
    assert_eq!(ev, Event::Created(1, id));
    // The new identifier appears in exactly one account's index.
    assert_eq!(pallet.owned_by(1).len(), 1);
    assert_eq!(pallet.owned_by(2).len(), 0);
    assert_eq!(pallet.get_kitty(&id).unwrap().owner, 1);
}

#[test]
fn deposit_scenario_two_mints_then_failure() {
    // Balance 200 and a deposit of 100: two mints go through, reserving 100
    // each; the third fails with the free balance at zero.
    let (mut pallet, mut ledger) = new_world();
    assert!(pallet.create_kitty(&mut ledger, 1, &ctx(1)).is_ok());
    assert_eq!(ledger.free_balance(1), 100);
    assert_eq!(ledger.reserved_balance(1), 100);
    assert!(pallet.create_kitty(&mut ledger, 1, &ctx(2)).is_ok());
    assert_eq!(ledger.free_balance(1), 0);
    assert_eq!(ledger.reserved_balance(1), 200);
    assert_eq!(pallet.create_kitty(&mut ledger, 1, &ctx(3)), Err(Error::ReserveBalanceFailed));
    assert_eq!(ledger.free_balance(1), 0);
    assert_eq!(ledger.reserved_balance(1), 200);
}

#[test]
fn capacity_scenario_fourth_mint_changes_nothing() {
    let (mut pallet, mut ledger) = new_world();
    assert!(pallet.create_kitty(&mut ledger, 2, &ctx(1)).is_ok());
    assert!(pallet.create_kitty(&mut ledger, 2, &ctx(2)).is_ok());
    assert!(pallet.create_kitty(&mut ledger, 2, &ctx(3)).is_ok());
    assert_eq!(pallet.kitty_count(), 3);
    let reserved = ledger.reserved_balance(2);
    assert_eq!(pallet.create_kitty(&mut ledger, 2, &ctx(4)), Err(Error::ExceedMaxKittyOwned));
    // No new kitty, no count change, no balance movement.
    assert_eq!(pallet.kitty_count(), 3);
    assert_eq!(pallet.owned_by(2).len(), 3);
    assert_eq!(ledger.reserved_balance(2), reserved);
}

#[test]
fn transfer_moves_deposit_and_clears_price() {
    let (mut pallet, mut ledger) = new_world();
    pallet.create_kitty(&mut ledger, 1, &ctx(1)).unwrap();
    let id = pallet.owned_by(1)[0];
    pallet.set_price(1, &id, Some(42)).unwrap();
    assert_eq!(ledger.reserved_balance(1), 100);
    assert_eq!(ledger.reserved_balance(2), 0);
    assert!(pallet.transfer(&mut ledger, 1, &id, 2).is_ok());
    // The deposit follows the kitty: released to the old owner, bonded to
    // the new one; and the kitty is delisted.
    assert_eq!(ledger.reserved_balance(1), 0);
    assert_eq!(ledger.free_balance(1), 200);
    assert_eq!(ledger.reserved_balance(2), 100);
    assert_eq!(ledger.free_balance(2), 400);
    let kitty = pallet.get_kitty(&id).unwrap();
    assert_eq!(kitty.owner, 2);
    assert_eq!(kitty.price, None);
}

#[test]
fn bid_equal_to_ask_fails() {
    let (mut pallet, mut ledger) = new_world();
    pallet.create_kitty(&mut ledger, 2, &ctx(1)).unwrap();
    let id = pallet.owned_by(2)[0];
    pallet.set_price(2, &id, Some(90)).unwrap();
    // The bid must strictly exceed the ask: equality is rejected.
    assert_eq!(pallet.buy_kitty(&mut ledger, 1, &id, 90), Err(Error::KittyBidPriceTooLow));
    assert!(pallet.buy_kitty(&mut ledger, 1, &id, 91).is_ok());
}

#[test]
fn buy_pays_the_bid_not_the_ask() {
    // Asset priced at 90, bid of 100 from a funded third party: the seller
    // receives the full 100, the buyer becomes owner, the price resets.
    let (mut pallet, mut ledger) = new_world();
    pallet.create_kitty(&mut ledger, 2, &ctx(1)).unwrap();
    let id = pallet.owned_by(2)[0];
    pallet.set_price(2, &id, Some(90)).unwrap();
    let seller_free = ledger.free_balance(2);
    let ev = pallet.buy_kitty(&mut ledger, 1, &id, 100).unwrap();
    assert_eq!(ev, Event::Bought(1, 2, id, 100));
    // The seller gains the bid plus the released deposit.
    assert_eq!(ledger.free_balance(2), seller_free + 100 + 100);
    assert_eq!(ledger.reserved_balance(2), 0);
    // The buyer paid the bid and bonded the deposit.
    assert_eq!(ledger.free_balance(1), 0);
    assert_eq!(ledger.reserved_balance(1), 100);
    let kitty = pallet.get_kitty(&id).unwrap();
    assert_eq!(kitty.owner, 1);
    assert_eq!(kitty.price, None);
}

#[test]
fn breeding_identical_parents_keeps_the_dna() {
    // A kitty bred from one parent used twice inherits that parent's dna
    // exactly, whatever mask the randomness supplies.
    let (mut pallet, mut ledger) = new_world();
    pallet.create_kitty(&mut ledger, 2, &ctx(1)).unwrap();
    let parent = pallet.owned_by(2)[0];
    let parent_dna = pallet.get_kitty(&parent).unwrap().dna;
    // Pure blends under several different masks.
    for block in 2..6 {
        let bred = pallet.breed_dna(&parent, &parent, &ctx(block)).unwrap();
        assert_eq!(bred, parent_dna);
    }
    // A full breeding: the child carries the parent's dna. The gender seed
    // differs so the child is not a byte-for-byte copy of the parent.
    let breed_ctx = RandomContext {
        dna_seed: [0; 32],
        gender_seed: [1; 32],
        extrinsic_index: 0,
        block_number: 7,
    };
    assert!(pallet.breed_kitty(&mut ledger, 2, &parent, &parent, &breed_ctx).is_ok());
    let child = pallet.owned_by(2)[1];
    let child_kitty = pallet.get_kitty(&child).unwrap();
    assert_eq!(child_kitty.dna, parent_dna);
    assert_eq!(child_kitty.gender, Gender::Female);
}

#[test]
fn breeding_unowned_parents_fails_before_any_change() {
    // Both parents belong to account 1: account 2's breeding fails with
    // NotKittyOwner, and no state moves at all.
    let (mut pallet, mut ledger) = new_world();
    pallet.create_kitty(&mut ledger, 1, &ctx(1)).unwrap();
    pallet.create_kitty(&mut ledger, 1, &ctx(2)).unwrap();
    let p1 = pallet.owned_by(1)[0];
    let p2 = pallet.owned_by(1)[1];
    let count = pallet.kitty_count();
    let reserved = ledger.reserved_balance(2);
    assert_eq!(
        pallet.breed_kitty(&mut ledger, 2, &p1, &p2, &ctx(3)),
        Err(Error::NotKittyOwner)
    );
    assert_eq!(pallet.kitty_count(), count);
    assert_eq!(ledger.reserved_balance(2), reserved);
    assert_eq!(pallet.owned_by(2).len(), 0);
}

#[test]
fn duplicate_content_is_rejected() {
    // The same owner, dna and gender hash to the same identifier: the
    // second mint reports the conflict and changes nothing.
    let (mut pallet, mut ledger) = new_world();
    assert!(pallet.create_kitty(&mut ledger, 2, &ctx(1)).is_ok());
    assert_eq!(pallet.create_kitty(&mut ledger, 2, &ctx(1)), Err(Error::KittyExists));
    assert_eq!(pallet.kitty_count(), 1);
    assert_eq!(ledger.reserved_balance(2), 100);
}

#[test]
fn count_overflow_is_rejected() {
    let (mut pallet, mut ledger) = new_world();
    pallet.count_kitties = u64::MAX;
    assert_eq!(pallet.create_kitty(&mut ledger, 1, &ctx(1)), Err(Error::CountForKittiesOverflow));
    assert_eq!(pallet.count_kitties, u64::MAX);
}

#[test]
fn missing_kitty_errors() {
    let (mut pallet, mut ledger) = new_world();
    let unknown_id = [7u8; 32];
    assert_eq!(pallet.buy_kitty(&mut ledger, 1, &unknown_id, 100), Err(Error::KittyNotExist));
    assert_eq!(pallet.breed_dna(&unknown_id, &unknown_id, &ctx(1)), Err(Error::KittyNotExist));
    // Absence reads as "not the owner" where ownership is what is checked.
    assert_eq!(pallet.set_price(1, &unknown_id, Some(5)), Err(Error::NotKittyOwner));
    assert_eq!(pallet.transfer(&mut ledger, 1, &unknown_id, 2), Err(Error::NotKittyOwner));
    assert_eq!(
        pallet.breed_kitty(&mut ledger, 1, &unknown_id, &unknown_id, &ctx(1)),
        Err(Error::NotKittyOwner)
    );
}

#[test]
fn selling_requires_a_price() {
    let (mut pallet, mut ledger) = new_world();
    pallet.create_kitty(&mut ledger, 2, &ctx(1)).unwrap();
    let id = pallet.owned_by(2)[0];
    assert_eq!(pallet.buy_kitty(&mut ledger, 1, &id, 100), Err(Error::KittyNotForSale));
    // A price can also be cleared again, delisting the kitty.
    pallet.set_price(2, &id, Some(90)).unwrap();
    pallet.set_price(2, &id, None).unwrap();
    assert_eq!(pallet.buy_kitty(&mut ledger, 1, &id, 100), Err(Error::KittyNotForSale));
}

#[test]
fn identifiers_depend_on_the_whole_record() {
    // Same randomness, different owner: different dna is not involved, yet
    // the identifiers differ because the owner is hashed too.
    let (mut pallet, mut ledger) = new_world();
    pallet.create_kitty(&mut ledger, 1, &ctx(1)).unwrap();
    pallet.create_kitty(&mut ledger, 2, &ctx(1)).unwrap();
    let id1 = pallet.owned_by(1)[0];
    let id2 = pallet.owned_by(2)[0];
    assert_ne!(id1, id2);
    let k1 = pallet.get_kitty(&id1).unwrap();
    let k2 = pallet.get_kitty(&id2).unwrap();
    // Identical context gives identical generated dna and gender.
    assert_eq!(k1.dna, k2.dna);
    assert_eq!(k1.gender, k2.gender);
    // A different block height varies the generated dna.
    pallet.create_kitty(&mut ledger, 2, &ctx(2)).unwrap();
    let id3 = pallet.owned_by(2)[1];
    assert_ne!(pallet.get_kitty(&id3).unwrap().dna, k2.dna);
}
