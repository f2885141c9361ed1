//! Laws of the escrow state machine, stated over the spec-level transitions
//! and proved once for all inputs.

use vstd::prelude::*;
use crate::custody::custody_address_of;
use crate::keys::AccountId;
use crate::ledger::bal;
use crate::machine::{cancel_spec, deposit_spec, release_spec, vault_of};
use crate::state::{completed, make_escrow, EscrowAccount, EscrowError, EscrowFailure};

verus! {

/// Once an escrow is completed, every mutating operation is rejected with
/// `AlreadyCompleted` and changes neither the record nor any balance,
/// whoever calls and whatever the ledger holds.
pub proof fn lemma_completed_is_terminal(
    e: EscrowAccount,
    b: Map<(Seq<u8>, Seq<u8>), u64>,
    caller: Seq<u8>,
)
    requires
        e.is_completed,
    ensures
        deposit_spec(e, b, caller) == (
            Err::<u64, EscrowFailure>(EscrowFailure::Guard(EscrowError::AlreadyCompleted)),
            b,
        ),
        release_spec(e, b, caller) == (
            Err::<u64, EscrowFailure>(EscrowFailure::Guard(EscrowError::AlreadyCompleted)),
            e,
            b,
        ),
        cancel_spec(e, b, caller) == (
            Err::<u64, EscrowFailure>(EscrowFailure::Guard(EscrowError::AlreadyCompleted)),
            e,
            b,
        ),
{
}

/// Release demands the receiver: any other caller is rejected with
/// `NotReceiver`, whatever the holding balance, with no transfer and no
/// state change.
pub proof fn lemma_release_requires_receiver(
    e: EscrowAccount,
    b: Map<(Seq<u8>, Seq<u8>), u64>,
    caller: Seq<u8>,
)
    requires
        !e.is_completed,
        caller != e.receiver@,
    ensures
        release_spec(e, b, caller) == (
            Err::<u64, EscrowFailure>(EscrowFailure::Guard(EscrowError::NotReceiver)),
            e,
            b,
        ),
{
}

/// Release before any deposit fails with `VaultBalanceMismatch`: an empty
/// custody holding cannot equal a positive agreed amount. No transfer
/// occurs and nothing changes.
pub proof fn lemma_release_unfunded_fails(
    e: EscrowAccount,
    b: Map<(Seq<u8>, Seq<u8>), u64>,
    caller: Seq<u8>,
)
    requires
        !e.is_completed,
        e.wf(),
        caller == e.receiver@,
        bal(b, vault_of(e), e.mint@) == 0,
    ensures
        release_spec(e, b, caller) == (
            Err::<u64, EscrowFailure>(EscrowFailure::Guard(EscrowError::VaultBalanceMismatch)),
            e,
            b,
        ),
{
}

/// Cancelling an unfunded escrow succeeds: it refunds nothing, moves no
/// funds, and still completes the escrow.
pub proof fn lemma_cancel_unfunded(
    e: EscrowAccount,
    b: Map<(Seq<u8>, Seq<u8>), u64>,
    caller: Seq<u8>,
)
    requires
        !e.is_completed,
        caller == e.sender@,
        bal(b, vault_of(e), e.mint@) == 0,
    ensures
        cancel_spec(e, b, caller) == (Ok::<u64, EscrowFailure>(0u64), completed(e), b),
{
}

/// A second deposit in a row is rejected with `AlreadyDeposited`, and the
/// custody holding ends at the agreed amount, not twice it. Stated for an
/// escrow whose custody address is not the sender itself, as the one-way
/// derivation guarantees.
pub proof fn lemma_second_deposit_rejected(
    e: EscrowAccount,
    b: Map<(Seq<u8>, Seq<u8>), u64>,
    caller: Seq<u8>,
)
    requires
        e.wf(),
        vault_of(e) != e.sender@,
        deposit_spec(e, b, caller).0 is Ok,
    ensures
        ({
            let b1 = deposit_spec(e, b, caller).1;
            deposit_spec(e, b1, caller).0 == Err::<u64, EscrowFailure>(
                EscrowFailure::Guard(EscrowError::AlreadyDeposited),
            ) && deposit_spec(e, b1, caller).1 == b1 && bal(b1, vault_of(e), e.mint@) == e.amount
        }),
{
    let b1 = deposit_spec(e, b, caller).1;
    assert(caller == e.sender@);
    assert(bal(b, vault_of(e), e.mint@) == 0);
    assert(b[(vault_of(e), e.mint@)] == 0);
    assert(b1[(vault_of(e), e.mint@)] == e.amount);
    assert(bal(b1, vault_of(e), e.mint@) == e.amount);
}

/// The custody holding only ever reads zero or exactly the agreed amount:
/// every operation, successful or not, keeps it so. A deposit only fills an
/// empty holding to the agreed amount; release and cancellation only empty
/// it.
pub proof fn lemma_vault_balance_invariant(
    e: EscrowAccount,
    b: Map<(Seq<u8>, Seq<u8>), u64>,
    caller: Seq<u8>,
)
    requires
        bal(b, vault_of(e), e.mint@) == 0 || bal(b, vault_of(e), e.mint@) == e.amount,
    ensures
        ({
            let after = bal(deposit_spec(e, b, caller).1, vault_of(e), e.mint@);
            after == 0 || after == e.amount
        }),
        ({
            let after = bal(release_spec(e, b, caller).2, vault_of(e), e.mint@);
            after == 0 || after == e.amount
        }),
        ({
            let after = bal(cancel_spec(e, b, caller).2, vault_of(e), e.mint@);
            after == 0 || after == e.amount
        }),
{
    let vault = vault_of(e);
    let k = (vault, e.mint@);
    if deposit_spec(e, b, caller).0 is Ok {
        assert(bal(b, vault, e.mint@) == 0);
        if caller != vault {
            assert(deposit_spec(e, b, caller).1[k] == e.amount);
        }
    }
    if release_spec(e, b, caller).0 is Ok {
        assert(bal(b, vault, e.mint@) == e.amount);
        if caller != vault {
            assert(release_spec(e, b, caller).2[k] == 0);
        }
    }
    if cancel_spec(e, b, caller).0 is Ok {
        let refund = bal(b, vault, e.mint@);
        if refund != 0 && caller != vault {
            assert(cancel_spec(e, b, caller).2[k] == 0);
        }
    }
}

/// The refund round trip: create, deposit by the sender, cancel by the
/// sender. The sender's balance is restored exactly, the custody holding
/// ends empty, the record is completed, and the cancellation reports the
/// full agreed amount as refunded. Stated for a sender whose holding
/// exists, is sufficiently funded, and is distinct from the custody
/// address, as the one-way derivation guarantees.
pub proof fn lemma_lifecycle_cancel(
    sender: AccountId,
    receiver: AccountId,
    mint: AccountId,
    amount: u64,
    b: Map<(Seq<u8>, Seq<u8>), u64>,
)
    requires
        amount > 0,
        custody_address_of(sender@, receiver@, mint@).0 != sender@,
        b.dom().contains((sender@, mint@)),
        b.dom().contains((custody_address_of(sender@, receiver@, mint@).0, mint@)),
        b[(custody_address_of(sender@, receiver@, mint@).0, mint@)] == 0,
        b[(sender@, mint@)] >= amount,
    ensures
        ({
            let e = make_escrow(sender, receiver, mint, amount);
            let vault = vault_of(e);
            let r1 = deposit_spec(e, b, sender@).0;
            let b1 = deposit_spec(e, b, sender@).1;
            let r2 = cancel_spec(e, b1, sender@).0;
            let e2 = cancel_spec(e, b1, sender@).1;
            let b2 = cancel_spec(e, b1, sender@).2;
            r1 == Ok::<u64, EscrowFailure>(amount) && r2 == Ok::<u64, EscrowFailure>(amount) && e2
                == completed(e) && bal(b2, vault, mint@) == 0 && bal(b2, sender@, mint@) == b[(
                sender@,
                mint@,
            )]
        }),
{
    let e = make_escrow(sender, receiver, mint, amount);
    let vault = vault_of(e);
    assert(bal(b, vault, mint@) == 0);
    let b1 = deposit_spec(e, b, sender@).1;
    assert((sender@, mint@) != (vault, mint@));
    assert(b1 == b.insert((sender@, mint@), (b[(sender@, mint@)] - amount) as u64).insert(
        (vault, mint@),
        (0 + amount) as u64,
    ));
    assert(b1[(vault, mint@)] == amount);
    assert(bal(b1, vault, mint@) == e.amount);
    let b2 = cancel_spec(e, b1, sender@).2;
    assert(b2 == b1.insert((vault, mint@), (amount - amount) as u64).insert(
        (sender@, mint@),
        (b1[(sender@, mint@)] + amount) as u64,
    ));
    assert(bal(b2, vault, mint@) == 0);
    assert(b1[(sender@, mint@)] == b[(sender@, mint@)] - amount);
    assert(b2[(sender@, mint@)] == b[(sender@, mint@)]);
}

/// The full successful lifecycle: create, deposit by the sender, release by
/// the receiver. The custody holding ends empty, the receiver's balance
/// grows by exactly the agreed amount, the sender's shrinks by it, the
/// record is completed, and each of the two moving steps reports the agreed
/// amount exactly once. Stated for distinct parties whose holdings exist,
/// a sufficiently funded sender, a receiver balance with room for the
/// amount, and a custody address distinct from both parties, as the
/// one-way derivation guarantees.
pub proof fn lemma_lifecycle_release(
    sender: AccountId,
    receiver: AccountId,
    mint: AccountId,
    amount: u64,
    b: Map<(Seq<u8>, Seq<u8>), u64>,
)
    requires
        amount > 0,
        sender@ != receiver@,
        custody_address_of(sender@, receiver@, mint@).0 != sender@,
        custody_address_of(sender@, receiver@, mint@).0 != receiver@,
        b.dom().contains((sender@, mint@)),
        b.dom().contains((receiver@, mint@)),
        b.dom().contains((custody_address_of(sender@, receiver@, mint@).0, mint@)),
        b[(custody_address_of(sender@, receiver@, mint@).0, mint@)] == 0,
        b[(sender@, mint@)] >= amount,
        b[(receiver@, mint@)] + amount <= u64::MAX,
    ensures
        ({
            let e = make_escrow(sender, receiver, mint, amount);
            let vault = vault_of(e);
            let r1 = deposit_spec(e, b, sender@).0;
            let b1 = deposit_spec(e, b, sender@).1;
            let r2 = release_spec(e, b1, receiver@).0;
            let e2 = release_spec(e, b1, receiver@).1;
            let b2 = release_spec(e, b1, receiver@).2;
            r1 == Ok::<u64, EscrowFailure>(amount) && r2 == Ok::<u64, EscrowFailure>(amount) && e2
                == completed(e) && e2.is_completed && bal(b2, vault, mint@) == 0 && bal(
                b2,
                receiver@,
                mint@,
            ) == b[(receiver@, mint@)] + amount && bal(b2, sender@, mint@) == b[(sender@, mint@)]
                - amount
        }),
{
    let e = make_escrow(sender, receiver, mint, amount);
    let vault = vault_of(e);
    assert(e.sender@ == sender@ && e.receiver@ == receiver@ && e.mint@ == mint@);
    assert(vault == custody_address_of(sender@, receiver@, mint@).0);
    assert(bal(b, vault, mint@) == 0);
    let b1 = deposit_spec(e, b, sender@).1;
    assert((sender@, mint@) != (vault, mint@));
    assert(b1 == b.insert((sender@, mint@), (b[(sender@, mint@)] - amount) as u64).insert(
        (vault, mint@),
        (0 + amount) as u64,
    ));
    assert(b1[(vault, mint@)] == amount);
    assert(b1[(receiver@, mint@)] == b[(receiver@, mint@)]);
    assert(bal(b1, vault, mint@) == e.amount);
    let b2 = release_spec(e, b1, receiver@).2;
    assert((vault, mint@) != (receiver@, mint@));
    assert(b2 == b1.insert((vault, mint@), (amount - amount) as u64).insert(
        (receiver@, mint@),
        (b1[(receiver@, mint@)] + amount) as u64,
    ));
    assert(bal(b2, vault, mint@) == 0);
    assert(b1[(sender@, mint@)] == b[(sender@, mint@)] - amount);
    assert(b2[(sender@, mint@)] == b1[(sender@, mint@)]);
}

} // verus!
