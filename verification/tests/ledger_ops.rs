use escrow::keys::AccountId;
use escrow::ledger::{
    burn_tokens, create_token, create_token_account, mint_tokens, transfer_tokens, Holding,
    Ledger, LedgerError, MintInfo,
};

fn acc(n: u8) -> AccountId {
    AccountId { bytes: [n; 32] }
}

#[test]
fn mint_and_transfer_move_exact_amounts() {
    let au = acc(9);
    let x = acc(3);
    let a = acc(1);
    let b = acc(2);
    let mut ledger = Ledger::new();
    create_token(&mut ledger, &au, &x).unwrap();
    create_token_account(&mut ledger, &a, &x).unwrap();
    create_token_account(&mut ledger, &b, &x).unwrap();
    mint_tokens(&mut ledger, &au, &x, &a, 70).unwrap();
    assert_eq!(ledger.balance_of(&a, &x), 70);
    transfer_tokens(&mut ledger, &a, &b, &x, 25).unwrap();
    assert_eq!(ledger.balance_of(&a, &x), 45);
    assert_eq!(ledger.balance_of(&b, &x), 25);
}

#[test]
fn duplicate_mint_rejected() {
    let mut ledger = Ledger::new();
    create_token(&mut ledger, &acc(9), &acc(3)).unwrap();
    let r = create_token(&mut ledger, &acc(8), &acc(3));
    assert_eq!(r.unwrap_err(), LedgerError::MintAlreadyExists);
}

#[test]
fn account_for_unknown_mint_rejected() {
    let mut ledger = Ledger::new();
    let r = create_token_account(&mut ledger, &acc(1), &acc(3));
    assert_eq!(r.unwrap_err(), LedgerError::MissingMint);
}

#[test]
fn duplicate_account_rejected() {
    let mut ledger = Ledger::new();
    create_token(&mut ledger, &acc(9), &acc(3)).unwrap();
    create_token_account(&mut ledger, &acc(1), &acc(3)).unwrap();
    let r = create_token_account(&mut ledger, &acc(1), &acc(3));
    assert_eq!(r.unwrap_err(), LedgerError::HoldingAlreadyExists);
}

#[test]
fn mint_by_non_authority_rejected() {
    let mut ledger = Ledger::new();
    create_token(&mut ledger, &acc(9), &acc(3)).unwrap();
    create_token_account(&mut ledger, &acc(1), &acc(3)).unwrap();
    let r = mint_tokens(&mut ledger, &acc(8), &acc(3), &acc(1), 10);
    assert_eq!(r.unwrap_err(), LedgerError::NotMintAuthority);
    assert_eq!(ledger.balance_of(&acc(1), &acc(3)), 0);
}

#[test]
fn mint_for_unknown_mint_rejected() {
    let mut ledger = Ledger::new();
    let r = mint_tokens(&mut ledger, &acc(9), &acc(3), &acc(1), 10);
    assert_eq!(r.unwrap_err(), LedgerError::MissingMint);
}

#[test]
fn mint_to_missing_holding_rejected() {
    let mut ledger = Ledger::new();
    create_token(&mut ledger, &acc(9), &acc(3)).unwrap();
    let r = mint_tokens(&mut ledger, &acc(9), &acc(3), &acc(1), 10);
    assert_eq!(r.unwrap_err(), LedgerError::MissingHolding);
}

#[test]
fn mint_supply_overflow_rejected() {
    let mut ledger = Ledger::new();
    create_token(&mut ledger, &acc(9), &acc(3)).unwrap();
    create_token_account(&mut ledger, &acc(1), &acc(3)).unwrap();
    mint_tokens(&mut ledger, &acc(9), &acc(3), &acc(1), u64::MAX).unwrap();
    let r = mint_tokens(&mut ledger, &acc(9), &acc(3), &acc(1), 1);
    assert_eq!(r.unwrap_err(), LedgerError::SupplyOverflow);
    assert_eq!(ledger.balance_of(&acc(1), &acc(3)), u64::MAX);
}

#[test]
fn transfer_balance_overflow_rejected() {
    let a = acc(1);
    let b = acc(2);
    let x = acc(3);
    // Built directly: two holdings whose sum exceeds the largest amount.
    let mut ledger = Ledger {
        holdings: vec![
            Holding { owner: a, mint: x, amount: u64::MAX },
            Holding { owner: b, mint: x, amount: 2 },
        ],
        mints: vec![MintInfo { mint: x, authority: acc(9), supply: u64::MAX }],
    };
    let r = transfer_tokens(&mut ledger, &b, &a, &x, 2);
    assert_eq!(r.unwrap_err(), LedgerError::BalanceOverflow);
    assert_eq!(ledger.balance_of(&a, &x), u64::MAX);
    assert_eq!(ledger.balance_of(&b, &x), 2);
}

#[test]
fn transfer_insufficient_balance_rejected() {
    let mut ledger = Ledger::new();
    create_token(&mut ledger, &acc(9), &acc(3)).unwrap();
    create_token_account(&mut ledger, &acc(1), &acc(3)).unwrap();
    create_token_account(&mut ledger, &acc(2), &acc(3)).unwrap();
    mint_tokens(&mut ledger, &acc(9), &acc(3), &acc(1), 5).unwrap();
    let r = transfer_tokens(&mut ledger, &acc(1), &acc(2), &acc(3), 6);
    assert_eq!(r.unwrap_err(), LedgerError::InsufficientBalance);
    assert_eq!(ledger.balance_of(&acc(1), &acc(3)), 5);
}

#[test]
fn transfer_missing_holding_rejected() {
    let mut ledger = Ledger::new();
    create_token(&mut ledger, &acc(9), &acc(3)).unwrap();
    create_token_account(&mut ledger, &acc(1), &acc(3)).unwrap();
    mint_tokens(&mut ledger, &acc(9), &acc(3), &acc(1), 5).unwrap();
    let r = transfer_tokens(&mut ledger, &acc(1), &acc(2), &acc(3), 5);
    assert_eq!(r.unwrap_err(), LedgerError::MissingHolding);
    assert_eq!(ledger.balance_of(&acc(1), &acc(3)), 5);
}

#[test]
fn transfer_to_self_changes_nothing() {
    let mut ledger = Ledger::new();
    create_token(&mut ledger, &acc(9), &acc(3)).unwrap();
    create_token_account(&mut ledger, &acc(1), &acc(3)).unwrap();
    mint_tokens(&mut ledger, &acc(9), &acc(3), &acc(1), 5).unwrap();
    transfer_tokens(&mut ledger, &acc(1), &acc(1), &acc(3), 5).unwrap();
    assert_eq!(ledger.balance_of(&acc(1), &acc(3)), 5);
}

#[test]
fn burn_shrinks_balance_and_supply() {
    let mut ledger = Ledger::new();
    create_token(&mut ledger, &acc(9), &acc(3)).unwrap();
    create_token_account(&mut ledger, &acc(1), &acc(3)).unwrap();
    mint_tokens(&mut ledger, &acc(9), &acc(3), &acc(1), 50).unwrap();
    burn_tokens(&mut ledger, &acc(1), &acc(3), 20).unwrap();
    assert_eq!(ledger.balance_of(&acc(1), &acc(3)), 30);
    // A second burn of more than what is left is rejected.
    let r = burn_tokens(&mut ledger, &acc(1), &acc(3), 31);
    assert_eq!(r.unwrap_err(), LedgerError::InsufficientBalance);
}

#[test]
fn burn_beyond_recorded_supply_rejected() {
    let a = acc(1);
    let x = acc(3);
    // Built directly: a holding larger than the mint's recorded supply.
    let mut ledger = Ledger {
        holdings: vec![Holding { owner: a, mint: x, amount: 5 }],
        mints: vec![MintInfo { mint: x, authority: acc(9), supply: 3 }],
    };
    let r = burn_tokens(&mut ledger, &a, &x, 5);
    assert_eq!(r.unwrap_err(), LedgerError::InsufficientSupply);
    assert_eq!(ledger.balance_of(&a, &x), 5);
}

#[test]
fn balance_of_absent_holding_is_zero() {
    let ledger = Ledger::new();
    assert_eq!(ledger.balance_of(&acc(1), &acc(3)), 0);
}
