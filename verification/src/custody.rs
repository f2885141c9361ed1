//! The custody authority: a deterministic, non-signable address derived
//! from an escrow's identity fields.
//!
//! The protocol never holds a private key for the custody holding. Its
//! authority is a program-derived address computed from the triple
//! `(sender, receiver, mint)` under the escrow program's identity, together
//! with a bump seed that pushes the result off the signing curve. Any party
//! can recompute the address to check that no substitution occurred.

use vstd::prelude::*;
use crate::keys::AccountId;

verus! {

/// The custody address and bump seed derived from an escrow's identity
/// triple. The derivation is a one-way function of its arguments alone.
pub uninterp spec fn custody_address_of(sender: Seq<u8>, receiver: Seq<u8>, mint: Seq<u8>) -> (
    Seq<u8>,
    u8,
);

/// Relies on `Pubkey::find_program_address` (anchor_lang's re-export of the
/// solana-pubkey address type): the derived address and bump seed are a
/// function of the seed bytes and the program id alone, the same in every
/// process. The program id is the protocol's own, decoded from its base58
/// form with `Pubkey::from_str_const`. The call aborts only for seed
/// material that admits no valid bump, a case so improbable that the
/// deployed protocol equally treats it as unreachable.
#[verifier::external_body]
fn find_custody_address(sender: &AccountId, receiver: &AccountId, mint: &AccountId) -> (r: (
    AccountId,
    u8,
))
    ensures
        (r.0@, r.1) == custody_address_of(sender@, receiver@, mint@),
{
    let program_id = anchor_lang::prelude::Pubkey::from_str_const(
        "Escrow1111111111111111111111111111111111111",
    );
    let (address, bump) = anchor_lang::prelude::Pubkey::find_program_address(
        &[b"escrow", &sender.bytes, &receiver.bytes, &mint.bytes],
        &program_id,
    );
    (AccountId { bytes: address.to_bytes() }, bump)
}

/// The custody address for an escrow identity triple: the owner of the
/// vault holding, recomputable by any party.
pub fn custody_authority(sender: &AccountId, receiver: &AccountId, mint: &AccountId) -> (r:
    AccountId)
    ensures
        r@ == custody_address_of(sender@, receiver@, mint@).0,
{
    let (address, _bump) = find_custody_address(sender, receiver, mint);
    address
}

/// The bump seed that, together with the triple, re-derives the custody
/// address.
pub fn custody_bump(sender: &AccountId, receiver: &AccountId, mint: &AccountId) -> (r: u8)
    ensures
        r == custody_address_of(sender@, receiver@, mint@).1,
{
    let (_address, bump) = find_custody_address(sender, receiver, mint);
    bump
}

} // verus!
