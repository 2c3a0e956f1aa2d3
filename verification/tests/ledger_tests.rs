use kitty_registry::Ledger;

#[test]
fn balances_start_at_zero() {
    let ledger = Ledger::new();
    assert_eq!(ledger.free_balance(9), 0);
    assert_eq!(ledger.reserved_balance(9), 0);
}

#[test]
fn reserve_moves_free_to_reserved() {
    let mut ledger = Ledger::new();
    assert!(ledger.deposit(5, 300));
    assert!(ledger.reserve(5, 120));
    assert_eq!(ledger.free_balance(5), 180);
    assert_eq!(ledger.reserved_balance(5), 120);
    // More than the free balance cannot be reserved.
    assert!(!ledger.reserve(5, 181));
    assert_eq!(ledger.free_balance(5), 180);
    assert_eq!(ledger.reserved_balance(5), 120);
}

#[test]
fn unreserve_is_best_effort() {
    let mut ledger = Ledger::new();
    assert!(ledger.deposit(5, 300));
    assert!(ledger.reserve(5, 100));
    // Releasing more than is held releases what is held and no more.
    ledger.unreserve(5, 250);
    assert_eq!(ledger.free_balance(5), 300);
    assert_eq!(ledger.reserved_balance(5), 0);
}

#[test]
fn transfer_moves_free_balance() {
    let mut ledger = Ledger::new();
    assert!(ledger.deposit(1, 50));
    assert!(ledger.transfer(1, 2, 30));
    assert_eq!(ledger.free_balance(1), 20);
    assert_eq!(ledger.free_balance(2), 30);
    // A transfer the balance does not cover moves nothing.
    assert!(!ledger.transfer(1, 2, 21));
    assert_eq!(ledger.free_balance(1), 20);
    assert_eq!(ledger.free_balance(2), 30);
}

#[test]
fn deposits_cannot_overflow_the_total() {
    let mut ledger = Ledger::new();
    assert!(ledger.deposit(1, u128::MAX));
    assert!(!ledger.deposit(2, 1));
    assert_eq!(ledger.free_balance(2), 0);
}
