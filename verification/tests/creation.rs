use escrow::custody::custody_bump;
use escrow::keys::{key_eq, AccountId};
use escrow::state::{EscrowError, EscrowFailure, EscrowStore};

fn acc(n: u8) -> AccountId {
    AccountId { bytes: [n; 32] }
}

#[test]
fn create_zero_amount_rejected() {
    let mut store = EscrowStore::new();
    let r = store.create_escrow(&acc(1), &acc(2), &acc(3), 0);
    assert_eq!(
        r.unwrap_err(),
        EscrowFailure::Guard(EscrowError::InvalidAmount)
    );
    assert!(store.find_escrow(&acc(1), &acc(2), &acc(3)).is_none());
}

#[test]
fn create_duplicate_triple_rejected() {
    let mut store = EscrowStore::new();
    store.create_escrow(&acc(1), &acc(2), &acc(3), 10).unwrap();
    let r = store.create_escrow(&acc(1), &acc(2), &acc(3), 99);
    assert_eq!(r.unwrap_err(), EscrowFailure::RecordExists);
    // The stored record keeps its original amount.
    let e = store.find_escrow(&acc(1), &acc(2), &acc(3)).unwrap();
    assert_eq!(e.amount, 10);
}

#[test]
fn create_initializes_the_record() {
    let a = acc(1);
    let b = acc(2);
    let x = acc(3);
    let mut store = EscrowStore::new();
    let e = store.create_escrow(&a, &b, &x, 42).unwrap();
    assert!(key_eq(&e.sender, &a));
    assert!(key_eq(&e.receiver, &b));
    assert!(key_eq(&e.mint, &x));
    assert_eq!(e.amount, 42);
    assert!(!e.is_completed);
    assert_eq!(e.bump, custody_bump(&a, &b, &x));
}

#[test]
fn distinct_triples_coexist() {
    let mut store = EscrowStore::new();
    store.create_escrow(&acc(1), &acc(2), &acc(3), 10).unwrap();
    store.create_escrow(&acc(1), &acc(2), &acc(4), 20).unwrap();
    store.create_escrow(&acc(2), &acc(1), &acc(3), 30).unwrap();
    assert_eq!(store.find_escrow(&acc(1), &acc(2), &acc(3)).unwrap().amount, 10);
    assert_eq!(store.find_escrow(&acc(1), &acc(2), &acc(4)).unwrap().amount, 20);
    assert_eq!(store.find_escrow(&acc(2), &acc(1), &acc(3)).unwrap().amount, 30);
    assert!(store.find_escrow(&acc(2), &acc(1), &acc(4)).is_none());
}
