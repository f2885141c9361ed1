//! The escrow record, the error surface, the events, and the keyed store
//! that holds one record per `(sender, receiver, mint)` triple.

use vstd::prelude::*;
use crate::custody::{custody_address_of, custody_bump};
use crate::keys::{key_eq, AccountId};
use crate::ledger::LedgerError;

verus! {

/// One escrow: who funds it, who may release it, which asset and amount it
/// covers, whether it reached a terminal outcome, and the bump seed that
/// re-derives its custody authority.
#[derive(Clone, Copy, Debug)]
pub struct EscrowAccount {
    pub sender: AccountId,
    pub receiver: AccountId,
    pub mint: AccountId,
    pub amount: u64,
    pub is_completed: bool,
    pub bump: u8,
}

impl EscrowAccount {
    /// A record as `create_escrow` makes it: the agreed amount is positive.
    pub open spec fn wf(&self) -> bool {
        self.amount > 0
    }

    /// The identity triple that keys the record.
    pub open spec fn triple(&self) -> (Seq<u8>, Seq<u8>, Seq<u8>) {
        (self.sender@, self.receiver@, self.mint@)
    }
}

/// The record `create_escrow(sender, receiver, mint, amount)` persists.
pub open spec fn make_escrow(
    sender: AccountId,
    receiver: AccountId,
    mint: AccountId,
    amount: u64,
) -> EscrowAccount {
    EscrowAccount {
        sender,
        receiver,
        mint,
        amount,
        is_completed: false,
        bump: custody_address_of(sender@, receiver@, mint@).1,
    }
}

/// The same record after reaching a terminal outcome.
pub open spec fn completed(e: EscrowAccount) -> EscrowAccount {
    EscrowAccount { is_completed: true, ..e }
}

/// Why a guard of the state machine rejected a call. None of these is
/// retriable with the same input.
#[derive(Clone, Copy, Debug, PartialEq, Eq, Structural)]
pub enum EscrowError {
    /// `create_escrow` was called with amount zero.
    InvalidAmount,
    /// A mutating call reached an escrow already released or cancelled.
    AlreadyCompleted,
    /// The caller is not the escrow's sender.
    NotSender,
    /// The caller is not the escrow's receiver.
    NotReceiver,
    /// `deposit_tokens` found the custody holding already funded.
    AlreadyDeposited,
    /// `release_tokens` found the custody holding not at exactly the agreed
    /// amount.
    VaultBalanceMismatch,
}

/// Why an escrow operation failed as a whole. A failed operation changes
/// neither the record nor any balance.
#[derive(Clone, Copy, Debug, PartialEq, Eq, Structural)]
pub enum EscrowFailure {
    /// A guard of the state machine rejected the call before any transfer.
    Guard(EscrowError),
    /// The asset ledger rejected the transfer the operation needed.
    Ledger(LedgerError),
    /// `create_escrow` found a record for the triple already present.
    RecordExists,
}

/// Emitted once per successful deposit: the custody address and the amount
/// moved into it.
#[derive(Clone, Copy, Debug)]
pub struct DepositedEvent {
    pub escrow: AccountId,
    pub amount: u64,
}

/// Emitted once per successful release: the custody address and the amount
/// paid out to the receiver.
#[derive(Clone, Copy, Debug)]
pub struct ReleasedEvent {
    pub escrow: AccountId,
    pub amount: u64,
}

/// Emitted once per successful cancellation: the custody address and the
/// amount refunded to the sender, possibly zero.
#[derive(Clone, Copy, Debug)]
pub struct CancelledEvent {
    pub escrow: AccountId,
    pub refunded_amount: u64,
}

/// No two records share an identity triple.
pub open spec fn unique_triples(s: Seq<EscrowAccount>) -> bool {
    forall|i: int, j: int| 0 <= i < j < s.len() ==> s[i].triple() != s[j].triple()
}

/// The store of escrow records, keyed by `(sender, receiver, mint)`.
pub struct EscrowStore {
    pub escrows: Vec<EscrowAccount>,
}

impl EscrowStore {
    /// One record per triple, each as `create_escrow` made it.
    pub open spec fn wf(&self) -> bool {
        unique_triples(self.escrows@) && forall|i: int|
            0 <= i < self.escrows@.len() ==> self.escrows@[i].wf()
    }

    /// An empty store.
    pub fn new() -> (r: EscrowStore)
        ensures
            r.wf(),
            r.escrows@.len() == 0,
    {
        EscrowStore { escrows: Vec::new() }
    }

    /// The index of the record for the triple, if one exists.
    fn find_index(&self, sender: &AccountId, receiver: &AccountId, mint: &AccountId) -> (r: Option<
        usize,
    >)
        ensures
            match r {
                Some(i) => i < self.escrows@.len() && self.escrows@[i as int].triple() == (
                    sender@,
                    receiver@,
                    mint@,
                ),
                None => forall|i: int|
                    0 <= i < self.escrows@.len() ==> self.escrows@[i].triple() != (
                        sender@,
                        receiver@,
                        mint@,
                    ),
            },
    {
        let n = self.escrows.len();
        let mut i: usize = 0;
        while i < n
            invariant
                i <= n,
                n == self.escrows@.len(),
                forall|j: int|
                    0 <= j < i ==> self.escrows@[j].triple() != (sender@, receiver@, mint@),
            decreases n - i,
        {
            let e = &self.escrows[i];
            if key_eq(&e.sender, sender) && key_eq(&e.receiver, receiver) && key_eq(
                &e.mint,
                mint,
            ) {
                return Some(i);
            }
            i += 1;
        }
        None
    }

    /// The record for the triple, if one exists.
    pub fn find_escrow(&self, sender: &AccountId, receiver: &AccountId, mint: &AccountId) -> (r:
        Option<EscrowAccount>)
        ensures
            match r {
                Some(e) => exists|i: int|
                    0 <= i < self.escrows@.len() && self.escrows@[i] == e && e.triple() == (
                        sender@,
                        receiver@,
                        mint@,
                    ),
                None => forall|i: int|
                    0 <= i < self.escrows@.len() ==> self.escrows@[i].triple() != (
                        sender@,
                        receiver@,
                        mint@,
                    ),
            },
    {
        match self.find_index(sender, receiver, mint) {
            Some(i) => Some(self.escrows[i]),
            None => None,
        }
    }

    /// Create the escrow record for `(sender, receiver, mint)` over `amount`
    /// units. Rejects a zero amount and a triple that already has a record;
    /// no funds move. On success the returned record is also stored.
    pub fn create_escrow(
        &mut self,
        sender: &AccountId,
        receiver: &AccountId,
        mint: &AccountId,
        amount: u64,
    ) -> (r: Result<EscrowAccount, EscrowFailure>)
        requires
            old(self).wf(),
        ensures
            final(self).wf(),
            match r {
                Ok(e) => amount > 0 && e == make_escrow(*sender, *receiver, *mint, amount)
                    && final(self).escrows@ == old(self).escrows@.push(e) && (forall|i: int|
                    0 <= i < old(self).escrows@.len() ==> old(self).escrows@[i].triple() != (
                        sender@,
                        receiver@,
                        mint@,
                    )),
                Err(EscrowFailure::Guard(EscrowError::InvalidAmount)) => amount == 0 && *final(self)
                    == *old(self),
                Err(EscrowFailure::RecordExists) => amount > 0 && (exists|i: int|
                    0 <= i < old(self).escrows@.len() && old(self).escrows@[i].triple() == (
                        sender@,
                        receiver@,
                        mint@,
                    )) && *final(self) == *old(self),
                Err(_) => false,
            },
    {
        if amount == 0 {
            return Err(EscrowFailure::Guard(EscrowError::InvalidAmount));
        }
        match self.find_index(sender, receiver, mint) {
            Some(_) => Err(EscrowFailure::RecordExists),
            None => {
                let bump = custody_bump(sender, receiver, mint);
                let record = EscrowAccount {
                    sender: *sender,
                    receiver: *receiver,
                    mint: *mint,
                    amount,
                    is_completed: false,
                    bump,
                };
                let ghost s0 = self.escrows@;
                self.escrows.push(record);
                proof {
                    let s2 = self.escrows@;
                    let n = s0.len() as int;
                    assert forall|i: int, j: int| 0 <= i < j < s2.len() implies s2[i].triple()
                        != s2[j].triple() by {
                        if j < n {
                            assert(s0[i].triple() != s0[j].triple());
                        } else {
                            assert(s2[j].triple() == (sender@, receiver@, mint@));
                            assert(s0[i].triple() != (sender@, receiver@, mint@));
                        }
                    }
                }
                Ok(record)
            },
        }
    }
}

} // verus!
