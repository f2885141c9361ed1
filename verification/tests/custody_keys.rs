use escrow::custody::{custody_authority, custody_bump};
use escrow::keys::{key_eq, AccountId};

fn acc(n: u8) -> AccountId {
    AccountId { bytes: [n; 32] }
}

#[test]
fn custody_matches_direct_program_derivation() {
    let a = acc(1);
    let b = acc(2);
    let x = acc(3);
    let program_id = solana_pubkey::Pubkey::from_str_const(
        "Escrow1111111111111111111111111111111111111",
    );
    let (expected, expected_bump) = solana_pubkey::Pubkey::find_program_address(
        &[b"escrow", &a.bytes, &b.bytes, &x.bytes],
        &program_id,
    );
    let vault = custody_authority(&a, &b, &x);
    assert_eq!(vault.bytes, expected.to_bytes());
    assert_eq!(custody_bump(&a, &b, &x), expected_bump);
}

#[test]
fn custody_differs_from_its_seed_identities() {
    let a = acc(1);
    let b = acc(2);
    let x = acc(3);
    let vault = custody_authority(&a, &b, &x);
    assert!(!key_eq(&vault, &a));
    assert!(!key_eq(&vault, &b));
    assert!(!key_eq(&vault, &x));
}

#[test]
fn custody_depends_on_every_identity_in_the_triple() {
    let a = acc(1);
    let b = acc(2);
    let x = acc(3);
    let base = custody_authority(&a, &b, &x);
    assert!(!key_eq(&base, &custody_authority(&acc(4), &b, &x)));
    assert!(!key_eq(&base, &custody_authority(&a, &acc(4), &x)));
    assert!(!key_eq(&base, &custody_authority(&a, &b, &acc(4))));
    // The same triple always derives the same authority.
    assert!(key_eq(&base, &custody_authority(&a, &b, &x)));
}

#[test]
fn key_eq_compares_all_bytes() {
    let a = acc(5);
    let mut almost = acc(5);
    almost.bytes[31] = 6;
    assert!(key_eq(&a, &acc(5)));
    assert!(!key_eq(&a, &almost));
    let mut first = acc(5);
    first.bytes[0] = 6;
    assert!(!key_eq(&a, &first));
}
