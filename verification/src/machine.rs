//! The escrow state machine: deposit, release and cancel, each an atomic
//! guarded operation over one record and the asset ledger.
//!
//! Every operation re-checks the caller's identity and the escrow's
//! completion flag itself, derives the custody address afresh, and performs
//! at most one ledger transfer; a rejected or failed operation changes
//! neither the record nor any balance.

use vstd::prelude::*;
use crate::custody::{custody_address_of, custody_authority};
use crate::keys::{key_eq, AccountId};
use crate::ledger::{bal, transfer_spec, transfer_tokens, Ledger};
use crate::state::{
    completed, CancelledEvent, DepositedEvent, EscrowAccount, EscrowError, EscrowFailure,
    ReleasedEvent,
};

verus! {

/// The owner of an escrow's custody holding: the address derived from its
/// identity triple.
pub open spec fn vault_of(e: EscrowAccount) -> Seq<u8> {
    custody_address_of(e.sender@, e.receiver@, e.mint@).0
}

/// What `deposit_tokens` does: with the escrow not terminal, the caller its
/// sender, and the custody holding empty, moves the agreed amount from the
/// caller to custody. The result carries the deposited amount; the map is
/// the balances afterwards, unchanged on any error.
pub open spec fn deposit_spec(
    e: EscrowAccount,
    b: Map<(Seq<u8>, Seq<u8>), u64>,
    caller: Seq<u8>,
) -> (Result<u64, EscrowFailure>, Map<(Seq<u8>, Seq<u8>), u64>) {
    if e.is_completed {
        (Err(EscrowFailure::Guard(EscrowError::AlreadyCompleted)), b)
    } else if caller != e.sender@ {
        (Err(EscrowFailure::Guard(EscrowError::NotSender)), b)
    } else if bal(b, vault_of(e), e.mint@) != 0 {
        (Err(EscrowFailure::Guard(EscrowError::AlreadyDeposited)), b)
    } else {
        match transfer_spec(b, caller, vault_of(e), e.mint@, e.amount) {
            Ok(b2) => (Ok(e.amount), b2),
            Err(le) => (Err(EscrowFailure::Ledger(le)), b),
        }
    }
}

/// What `release_tokens` does: with the escrow not terminal, the caller its
/// receiver, and the custody holding at exactly the agreed amount, pays the
/// holding out to the caller and marks the escrow completed.
pub open spec fn release_spec(
    e: EscrowAccount,
    b: Map<(Seq<u8>, Seq<u8>), u64>,
    caller: Seq<u8>,
) -> (Result<u64, EscrowFailure>, EscrowAccount, Map<(Seq<u8>, Seq<u8>), u64>) {
    if e.is_completed {
        (Err(EscrowFailure::Guard(EscrowError::AlreadyCompleted)), e, b)
    } else if caller != e.receiver@ {
        (Err(EscrowFailure::Guard(EscrowError::NotReceiver)), e, b)
    } else if bal(b, vault_of(e), e.mint@) != e.amount {
        (Err(EscrowFailure::Guard(EscrowError::VaultBalanceMismatch)), e, b)
    } else {
        match transfer_spec(b, vault_of(e), caller, e.mint@, e.amount) {
            Ok(b2) => (Ok(e.amount), completed(e), b2),
            Err(le) => (Err(EscrowFailure::Ledger(le)), e, b),
        }
    }
}

/// What `cancel_escrow` does: with the escrow not terminal and the caller
/// its sender, refunds whatever the custody holding contains (possibly
/// nothing) and marks the escrow completed. The result carries the refunded
/// amount.
pub open spec fn cancel_spec(
    e: EscrowAccount,
    b: Map<(Seq<u8>, Seq<u8>), u64>,
    caller: Seq<u8>,
) -> (Result<u64, EscrowFailure>, EscrowAccount, Map<(Seq<u8>, Seq<u8>), u64>) {
    if e.is_completed {
        (Err(EscrowFailure::Guard(EscrowError::AlreadyCompleted)), e, b)
    } else if caller != e.sender@ {
        (Err(EscrowFailure::Guard(EscrowError::NotSender)), e, b)
    } else {
        let refund = bal(b, vault_of(e), e.mint@);
        if refund == 0 {
            (Ok(0u64), completed(e), b)
        } else {
            match transfer_spec(b, vault_of(e), caller, e.mint@, refund) {
                Ok(b2) => (Ok(refund), completed(e), b2),
                Err(le) => (Err(EscrowFailure::Ledger(le)), e, b),
            }
        }
    }
}

/// Fund the escrow: move the agreed amount from the caller, who must be the
/// sender, into the empty custody holding. The record is not changed; the
/// escrow stays open for release or cancellation.
pub fn deposit_tokens(escrow: &EscrowAccount, ledger: &mut Ledger, caller: &AccountId) -> (r:
    Result<DepositedEvent, EscrowFailure>)
    requires
        old(ledger).wf(),
    ensures
        final(ledger).wf(),
        final(ledger).mint_records() == old(ledger).mint_records(),
        final(ledger).balances() == deposit_spec(*escrow, old(ledger).balances(), caller@).1,
        match r {
            Ok(ev) => deposit_spec(*escrow, old(ledger).balances(), caller@).0 == Ok::<
                u64,
                EscrowFailure,
            >(ev.amount) && ev.escrow@ == vault_of(*escrow),
            Err(f) => deposit_spec(*escrow, old(ledger).balances(), caller@).0 == Err::<
                u64,
                EscrowFailure,
            >(f) && *final(ledger) == *old(ledger),
        },
{
    if escrow.is_completed {
        return Err(EscrowFailure::Guard(EscrowError::AlreadyCompleted));
    }
    if !key_eq(caller, &escrow.sender) {
        return Err(EscrowFailure::Guard(EscrowError::NotSender));
    }
    let vault = custody_authority(&escrow.sender, &escrow.receiver, &escrow.mint);
    let vault_balance = ledger.balance_of(&vault, &escrow.mint);
    if vault_balance != 0 {
        return Err(EscrowFailure::Guard(EscrowError::AlreadyDeposited));
    }
    match transfer_tokens(ledger, caller, &vault, &escrow.mint, escrow.amount) {
        Ok(()) => Ok(DepositedEvent { escrow: vault, amount: escrow.amount }),
        Err(le) => Err(EscrowFailure::Ledger(le)),
    }
}

/// Release the funded escrow: pay the custody holding, which must contain
/// exactly the agreed amount, out to the caller, who must be the receiver,
/// and mark the escrow completed.
pub fn release_tokens(escrow: &mut EscrowAccount, ledger: &mut Ledger, caller: &AccountId) -> (r:
    Result<ReleasedEvent, EscrowFailure>)
    requires
        old(ledger).wf(),
    ensures
        final(ledger).wf(),
        final(ledger).mint_records() == old(ledger).mint_records(),
        *final(escrow) == release_spec(*old(escrow), old(ledger).balances(), caller@).1,
        final(ledger).balances() == release_spec(*old(escrow), old(ledger).balances(), caller@).2,
        match r {
            Ok(ev) => release_spec(*old(escrow), old(ledger).balances(), caller@).0 == Ok::<
                u64,
                EscrowFailure,
            >(ev.amount) && ev.escrow@ == vault_of(*old(escrow)),
            Err(f) => release_spec(*old(escrow), old(ledger).balances(), caller@).0 == Err::<
                u64,
                EscrowFailure,
            >(f) && *final(ledger) == *old(ledger) && *final(escrow) == *old(escrow),
        },
{
    if escrow.is_completed {
        return Err(EscrowFailure::Guard(EscrowError::AlreadyCompleted));
    }
    if !key_eq(caller, &escrow.receiver) {
        return Err(EscrowFailure::Guard(EscrowError::NotReceiver));
    }
    let vault = custody_authority(&escrow.sender, &escrow.receiver, &escrow.mint);
    let vault_balance = ledger.balance_of(&vault, &escrow.mint);
    if vault_balance != escrow.amount {
        return Err(EscrowFailure::Guard(EscrowError::VaultBalanceMismatch));
    }
    match transfer_tokens(ledger, &vault, caller, &escrow.mint, escrow.amount) {
        Ok(()) => {
            escrow.is_completed = true;
            Ok(ReleasedEvent { escrow: vault, amount: escrow.amount })
        },
        Err(le) => Err(EscrowFailure::Ledger(le)),
    }
}

/// Cancel the escrow: refund whatever the custody holding contains to the
/// caller, who must be the sender, and mark the escrow completed. An
/// unfunded escrow is cancelled without any transfer.
pub fn cancel_escrow(escrow: &mut EscrowAccount, ledger: &mut Ledger, caller: &AccountId) -> (r:
    Result<CancelledEvent, EscrowFailure>)
    requires
        old(ledger).wf(),
    ensures
        final(ledger).wf(),
        final(ledger).mint_records() == old(ledger).mint_records(),
        *final(escrow) == cancel_spec(*old(escrow), old(ledger).balances(), caller@).1,
        final(ledger).balances() == cancel_spec(*old(escrow), old(ledger).balances(), caller@).2,
        match r {
            Ok(ev) => cancel_spec(*old(escrow), old(ledger).balances(), caller@).0 == Ok::<
                u64,
                EscrowFailure,
            >(ev.refunded_amount) && ev.escrow@ == vault_of(*old(escrow)),
            Err(f) => cancel_spec(*old(escrow), old(ledger).balances(), caller@).0 == Err::<
                u64,
                EscrowFailure,
            >(f) && *final(ledger) == *old(ledger) && *final(escrow) == *old(escrow),
        },
{
    if escrow.is_completed {
        return Err(EscrowFailure::Guard(EscrowError::AlreadyCompleted));
    }
    if !key_eq(caller, &escrow.sender) {
        return Err(EscrowFailure::Guard(EscrowError::NotSender));
    }
    let vault = custody_authority(&escrow.sender, &escrow.receiver, &escrow.mint);
    let vault_balance = ledger.balance_of(&vault, &escrow.mint);
    if vault_balance == 0 {
        escrow.is_completed = true;
        return Ok(CancelledEvent { escrow: vault, refunded_amount: 0 });
    }
    match transfer_tokens(ledger, &vault, caller, &escrow.mint, vault_balance) {
        Ok(()) => {
            escrow.is_completed = true;
            Ok(CancelledEvent { escrow: vault, refunded_amount: vault_balance })
        },
        Err(le) => Err(EscrowFailure::Ledger(le)),
    }
}

} // verus!
