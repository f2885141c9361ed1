//! A model of the asset ledger the escrow protocol runs against.
//!
//! The ledger keeps one balance per `(owner, mint)` pair and one record per
//! mint. The escrow state machine only needs `transfer`; the remaining
//! operations (`create_token`, `create_token_account`, `mint_tokens`,
//! `burn_tokens`) are the issuance primitives the surrounding programs
//! expose. Each operation is atomic: on any error the ledger is unchanged.

use vstd::prelude::*;
use crate::keys::{key_eq, AccountId};

verus! {

/// One fungible-asset balance: `amount` units of `mint` owned by `owner`.
#[derive(Clone, Copy, Debug)]
pub struct Holding {
    pub owner: AccountId,
    pub mint: AccountId,
    pub amount: u64,
}

/// One fungible asset: its identifier, its issuing authority and its supply.
#[derive(Clone, Copy, Debug)]
pub struct MintInfo {
    pub mint: AccountId,
    pub authority: AccountId,
    pub supply: u64,
}

/// Why a ledger operation was rejected. A rejected operation changes nothing.
#[derive(Clone, Copy, Debug, PartialEq, Eq, Structural)]
pub enum LedgerError {
    /// No mint with the given identifier exists.
    MissingMint,
    /// A mint with the given identifier already exists.
    MintAlreadyExists,
    /// No holding exists for the given `(owner, mint)` pair.
    MissingHolding,
    /// A holding for the given `(owner, mint)` pair already exists.
    HoldingAlreadyExists,
    /// The caller is not the mint's issuing authority.
    NotMintAuthority,
    /// The source holding has fewer units than requested.
    InsufficientBalance,
    /// The mint's recorded supply is smaller than the amount burned.
    InsufficientSupply,
    /// A holding's balance would exceed the largest representable amount.
    BalanceOverflow,
    /// A mint's supply would exceed the largest representable amount.
    SupplyOverflow,
}

/// The identity of a holding: who owns it and which asset it holds.
pub open spec fn holding_key(h: Holding) -> (Seq<u8>, Seq<u8>) {
    (h.owner@, h.mint@)
}

/// No two holdings share an `(owner, mint)` pair.
pub open spec fn unique_holdings(s: Seq<Holding>) -> bool {
    forall|i: int, j: int|
        0 <= i < j < s.len() ==> holding_key(s[i]) != holding_key(s[j])
}

/// No two mints share an identifier.
pub open spec fn unique_mints(s: Seq<MintInfo>) -> bool {
    forall|i: int, j: int| 0 <= i < j < s.len() ==> s[i].mint@ != s[j].mint@
}

/// The balances held in a sequence of holdings, as a map from
/// `(owner, mint)` to the amount held.
pub open spec fn balances_of(s: Seq<Holding>) -> Map<(Seq<u8>, Seq<u8>), u64> {
    Map::new(
        |k: (Seq<u8>, Seq<u8>)|
            exists|i: int| 0 <= i < s.len() && holding_key(s[i]) == k,
        |k: (Seq<u8>, Seq<u8>)|
            s[choose|i: int| 0 <= i < s.len() && holding_key(s[i]) == k].amount,
    )
}

/// The mints in a sequence of mint records, as a map from the mint
/// identifier to its authority and supply.
pub open spec fn mints_of(s: Seq<MintInfo>) -> Map<Seq<u8>, (Seq<u8>, u64)> {
    Map::new(
        |k: Seq<u8>| exists|i: int| 0 <= i < s.len() && s[i].mint@ == k,
        |k: Seq<u8>|
            ({
                let m = s[choose|i: int| 0 <= i < s.len() && s[i].mint@ == k];
                (m.authority@, m.supply)
            }),
    )
}

/// The balance of `(owner, mint)`, taking an absent holding as zero.
pub open spec fn bal(b: Map<(Seq<u8>, Seq<u8>), u64>, owner: Seq<u8>, mint: Seq<u8>) -> u64 {
    if b.dom().contains((owner, mint)) {
        b[(owner, mint)]
    } else {
        0
    }
}

pub proof fn lemma_balances_index(s: Seq<Holding>, i: int)
    requires
        unique_holdings(s),
        0 <= i < s.len(),
    ensures
        balances_of(s).dom().contains(holding_key(s[i])),
        balances_of(s)[holding_key(s[i])] == s[i].amount,
{
    let k = holding_key(s[i]);
    assert(exists|j: int| 0 <= j < s.len() && holding_key(s[j]) == k) by {
        assert(holding_key(s[i]) == k);
    }
    let j = choose|j: int| 0 <= j < s.len() && holding_key(s[j]) == k;
    if j != i {
        assert(holding_key(s[i]) != holding_key(s[j]));
        assert(false);
    }
}

pub proof fn lemma_balances_absent(s: Seq<Holding>, k: (Seq<u8>, Seq<u8>))
    requires
        forall|i: int| 0 <= i < s.len() ==> holding_key(s[i]) != k,
    ensures
        !balances_of(s).dom().contains(k),
{
}

pub proof fn lemma_balances_update(s: Seq<Holding>, i: int, h: Holding)
    requires
        unique_holdings(s),
        0 <= i < s.len(),
        holding_key(h) == holding_key(s[i]),
    ensures
        unique_holdings(s.update(i, h)),
        balances_of(s.update(i, h)) == balances_of(s).insert(holding_key(h), h.amount),
{
    let s2 = s.update(i, h);
    assert forall|x: int| 0 <= x < s2.len() implies holding_key(s2[x]) == holding_key(s[x]) by {}
    let m1 = balances_of(s2);
    let m2 = balances_of(s).insert(holding_key(h), h.amount);
    assert forall|k: (Seq<u8>, Seq<u8>)| #[trigger] m1.dom().contains(k) implies m2.dom().contains(
        k,
    ) by {
        let j = choose|j: int| 0 <= j < s2.len() && holding_key(s2[j]) == k;
        assert(holding_key(s[j]) == k);
        lemma_balances_index(s, j);
    }
    assert forall|k: (Seq<u8>, Seq<u8>)| #[trigger] m2.dom().contains(k) implies m1.dom().contains(
        k,
    ) by {
        if k == holding_key(h) {
            assert(holding_key(s2[i]) == k);
        } else {
            let j = choose|j: int| 0 <= j < s.len() && holding_key(s[j]) == k;
            assert(holding_key(s2[j]) == k);
        }
    }
    assert forall|k: (Seq<u8>, Seq<u8>)| #[trigger] m1.dom().contains(k) implies m1[k] == m2[k] by {
        let j = choose|j: int| 0 <= j < s2.len() && holding_key(s2[j]) == k;
        lemma_balances_index(s2, j);
        if j == i {
            assert(m1[k] == h.amount);
        } else {
            assert(holding_key(s2[j]) != holding_key(s2[i]));
            assert(k != holding_key(h));
            lemma_balances_index(s, j);
        }
    }
    assert(m1 =~= m2);
}

pub proof fn lemma_balances_push(s: Seq<Holding>, h: Holding)
    requires
        unique_holdings(s),
        forall|i: int| 0 <= i < s.len() ==> holding_key(s[i]) != holding_key(h),
    ensures
        unique_holdings(s.push(h)),
        balances_of(s.push(h)) == balances_of(s).insert(holding_key(h), h.amount),
{
    let s2 = s.push(h);
    let n = s.len() as int;
    assert forall|x: int| 0 <= x < n implies holding_key(s2[x]) == holding_key(s[x]) by {}
    let m1 = balances_of(s2);
    let m2 = balances_of(s).insert(holding_key(h), h.amount);
    assert forall|k: (Seq<u8>, Seq<u8>)| #[trigger] m1.dom().contains(k) implies m2.dom().contains(
        k,
    ) by {
        let j = choose|j: int| 0 <= j < s2.len() && holding_key(s2[j]) == k;
        if j < n {
            lemma_balances_index(s, j);
        }
    }
    assert forall|k: (Seq<u8>, Seq<u8>)| #[trigger] m2.dom().contains(k) implies m1.dom().contains(
        k,
    ) by {
        if k == holding_key(h) {
            assert(holding_key(s2[n]) == k);
        } else {
            let j = choose|j: int| 0 <= j < s.len() && holding_key(s[j]) == k;
            assert(holding_key(s2[j]) == k);
        }
    }
    assert forall|k: (Seq<u8>, Seq<u8>)| #[trigger] m1.dom().contains(k) implies m1[k] == m2[k] by {
        let j = choose|j: int| 0 <= j < s2.len() && holding_key(s2[j]) == k;
        lemma_balances_index(s2, j);
        if j == n {
            assert(m1[k] == h.amount);
        } else {
            assert(holding_key(s2[j]) != holding_key(s2[n]));
            assert(k != holding_key(h));
            lemma_balances_index(s, j);
        }
    }
    assert(m1 =~= m2);
}

pub proof fn lemma_mints_index(s: Seq<MintInfo>, i: int)
    requires
        unique_mints(s),
        0 <= i < s.len(),
    ensures
        mints_of(s).dom().contains(s[i].mint@),
        mints_of(s)[s[i].mint@] == (s[i].authority@, s[i].supply),
{
    let k = s[i].mint@;
    assert(exists|j: int| 0 <= j < s.len() && s[j].mint@ == k) by {
        assert(s[i].mint@ == k);
    }
    let j = choose|j: int| 0 <= j < s.len() && s[j].mint@ == k;
    if j != i {
        assert(s[i].mint@ != s[j].mint@);
        assert(false);
    }
}

pub proof fn lemma_mints_absent(s: Seq<MintInfo>, k: Seq<u8>)
    requires
        forall|i: int| 0 <= i < s.len() ==> s[i].mint@ != k,
    ensures
        !mints_of(s).dom().contains(k),
{
}

pub proof fn lemma_mints_update(s: Seq<MintInfo>, i: int, m: MintInfo)
    requires
        unique_mints(s),
        0 <= i < s.len(),
        m.mint@ == s[i].mint@,
    ensures
        unique_mints(s.update(i, m)),
        mints_of(s.update(i, m)) == mints_of(s).insert(m.mint@, (m.authority@, m.supply)),
{
    let s2 = s.update(i, m);
    assert forall|x: int| 0 <= x < s2.len() implies s2[x].mint@ == s[x].mint@ by {}
    let m1 = mints_of(s2);
    let m2 = mints_of(s).insert(m.mint@, (m.authority@, m.supply));
    assert forall|k: Seq<u8>| #[trigger] m1.dom().contains(k) implies m2.dom().contains(k) by {
        let j = choose|j: int| 0 <= j < s2.len() && s2[j].mint@ == k;
        assert(s[j].mint@ == k);
        lemma_mints_index(s, j);
    }
    assert forall|k: Seq<u8>| #[trigger] m2.dom().contains(k) implies m1.dom().contains(k) by {
        if k == m.mint@ {
            assert(s2[i].mint@ == k);
        } else {
            let j = choose|j: int| 0 <= j < s.len() && s[j].mint@ == k;
            assert(s2[j].mint@ == k);
        }
    }
    assert forall|k: Seq<u8>| #[trigger] m1.dom().contains(k) implies m1[k] == m2[k] by {
        let j = choose|j: int| 0 <= j < s2.len() && s2[j].mint@ == k;
        lemma_mints_index(s2, j);
        if j == i {
            assert(m1[k] == (m.authority@, m.supply));
        } else {
            assert(s2[j].mint@ != s2[i].mint@);
            assert(k != m.mint@);
            lemma_mints_index(s, j);
        }
    }
    assert(m1 =~= m2);
}

pub proof fn lemma_mints_push(s: Seq<MintInfo>, m: MintInfo)
    requires
        unique_mints(s),
        forall|i: int| 0 <= i < s.len() ==> s[i].mint@ != m.mint@,
    ensures
        unique_mints(s.push(m)),
        mints_of(s.push(m)) == mints_of(s).insert(m.mint@, (m.authority@, m.supply)),
{
    let s2 = s.push(m);
    let n = s.len() as int;
    let m1 = mints_of(s2);
    let m2 = mints_of(s).insert(m.mint@, (m.authority@, m.supply));
    assert forall|k: Seq<u8>| #[trigger] m1.dom().contains(k) implies m2.dom().contains(k) by {
        let j = choose|j: int| 0 <= j < s2.len() && s2[j].mint@ == k;
        if j < n {
            lemma_mints_index(s, j);
        }
    }
    assert forall|k: Seq<u8>| #[trigger] m2.dom().contains(k) implies m1.dom().contains(k) by {
        if k == m.mint@ {
            assert(s2[n].mint@ == k);
        } else {
            let j = choose|j: int| 0 <= j < s.len() && s[j].mint@ == k;
            assert(s2[j].mint@ == k);
        }
    }
    assert forall|k: Seq<u8>| #[trigger] m1.dom().contains(k) implies m1[k] == m2[k] by {
        let j = choose|j: int| 0 <= j < s2.len() && s2[j].mint@ == k;
        lemma_mints_index(s2, j);
        if j == n {
            assert(m1[k] == (m.authority@, m.supply));
        } else {
            assert(s2[j].mint@ != s2[n].mint@);
            assert(k != m.mint@);
            lemma_mints_index(s, j);
        }
    }
    assert(m1 =~= m2);
}

/// The asset ledger: every holding and every mint.
pub struct Ledger {
    pub holdings: Vec<Holding>,
    pub mints: Vec<MintInfo>,
}

impl Ledger {
    /// Each `(owner, mint)` pair and each mint identifier occurs at most once.
    pub open spec fn wf(&self) -> bool {
        unique_holdings(self.holdings@) && unique_mints(self.mints@)
    }

    /// All balances, keyed by `(owner, mint)`.
    pub open spec fn balances(&self) -> Map<(Seq<u8>, Seq<u8>), u64> {
        balances_of(self.holdings@)
    }

    /// All mints, keyed by identifier; the value is `(authority, supply)`.
    pub open spec fn mint_records(&self) -> Map<Seq<u8>, (Seq<u8>, u64)> {
        mints_of(self.mints@)
    }

    /// An empty ledger: no mints, no holdings.
    pub fn new() -> (r: Ledger)
        ensures
            r.wf(),
            r.balances() == Map::<(Seq<u8>, Seq<u8>), u64>::empty(),
            r.mint_records() == Map::<Seq<u8>, (Seq<u8>, u64)>::empty(),
    {
        let r = Ledger { holdings: Vec::new(), mints: Vec::new() };
        proof {
            assert(r.balances() =~= Map::<(Seq<u8>, Seq<u8>), u64>::empty());
            assert(r.mint_records() =~= Map::<Seq<u8>, (Seq<u8>, u64)>::empty());
        }
        r
    }

    /// The index of the holding for `(owner, mint)`, if one exists.
    pub fn find_holding(&self, owner: &AccountId, mint: &AccountId) -> (r: Option<usize>)
        ensures
            match r {
                Some(i) => i < self.holdings@.len() && holding_key(self.holdings@[i as int]) == (
                    owner@,
                    mint@,
                ),
                None => forall|i: int|
                    0 <= i < self.holdings@.len() ==> holding_key(self.holdings@[i]) != (
                        owner@,
                        mint@,
                    ),
            },
    {
        let n = self.holdings.len();
        let mut i: usize = 0;
        while i < n
            invariant
                i <= n,
                n == self.holdings@.len(),
                forall|j: int| 0 <= j < i ==> holding_key(self.holdings@[j]) != (owner@, mint@),
            decreases n - i,
        {
            let h = &self.holdings[i];
            if key_eq(&h.owner, owner) && key_eq(&h.mint, mint) {
                return Some(i);
            }
            i += 1;
        }
        None
    }

    /// The index of the record for `mint`, if one exists.
    pub fn find_mint(&self, mint: &AccountId) -> (r: Option<usize>)
        ensures
            match r {
                Some(i) => i < self.mints@.len() && self.mints@[i as int].mint@ == mint@,
                None => forall|i: int|
                    0 <= i < self.mints@.len() ==> self.mints@[i].mint@ != mint@,
            },
    {
        let n = self.mints.len();
        let mut i: usize = 0;
        while i < n
            invariant
                i <= n,
                n == self.mints@.len(),
                forall|j: int| 0 <= j < i ==> self.mints@[j].mint@ != mint@,
            decreases n - i,
        {
            if key_eq(&self.mints[i].mint, mint) {
                return Some(i);
            }
            i += 1;
        }
        None
    }

    /// The balance of `(owner, mint)`; an absent holding reads as zero.
    pub fn balance_of(&self, owner: &AccountId, mint: &AccountId) -> (r: u64)
        requires
            self.wf(),
        ensures
            r == bal(self.balances(), owner@, mint@),
    {
        match self.find_holding(owner, mint) {
            Some(i) => {
                proof {
                    lemma_balances_index(self.holdings@, i as int);
                }
                self.holdings[i].amount
            },
            None => {
                proof {
                    lemma_balances_absent(self.holdings@, (owner@, mint@));
                }
                0
            },
        }
    }
}

/// What `transfer_tokens` does to the balances: moves `amount` units of
/// `mint` from `from` to `to`, or reports why it cannot. Both holdings must
/// already exist; a transfer to the source itself changes nothing.
pub open spec fn transfer_spec(
    b: Map<(Seq<u8>, Seq<u8>), u64>,
    from: Seq<u8>,
    to: Seq<u8>,
    mint: Seq<u8>,
    amount: u64,
) -> Result<Map<(Seq<u8>, Seq<u8>), u64>, LedgerError> {
    if !b.dom().contains((from, mint)) {
        Err(LedgerError::MissingHolding)
    } else if !b.dom().contains((to, mint)) {
        Err(LedgerError::MissingHolding)
    } else if b[(from, mint)] < amount {
        Err(LedgerError::InsufficientBalance)
    } else if from == to {
        Ok(b)
    } else if b[(to, mint)] + amount > u64::MAX {
        Err(LedgerError::BalanceOverflow)
    } else {
        Ok(
            b.insert((from, mint), (b[(from, mint)] - amount) as u64).insert(
                (to, mint),
                (b[(to, mint)] + amount) as u64,
            ),
        )
    }
}

/// Move `amount` units of `mint` from `from`'s holding to `to`'s holding.
/// The mints are untouched; on an error nothing changes.
pub fn transfer_tokens(
    ledger: &mut Ledger,
    from: &AccountId,
    to: &AccountId,
    mint: &AccountId,
    amount: u64,
) -> (r: Result<(), LedgerError>)
    requires
        old(ledger).wf(),
    ensures
        final(ledger).wf(),
        final(ledger).mint_records() == old(ledger).mint_records(),
        match r {
            Ok(()) => transfer_spec(old(ledger).balances(), from@, to@, mint@, amount) == Ok::<
                _,
                LedgerError,
            >(final(ledger).balances()),
            Err(e) => transfer_spec(old(ledger).balances(), from@, to@, mint@, amount) == Err::<
                Map<(Seq<u8>, Seq<u8>), u64>,
                _,
            >(e) && *final(ledger) == *old(ledger),
        },
{
    let fi = match ledger.find_holding(from, mint) {
        Some(i) => i,
        None => {
            proof {
                lemma_balances_absent(ledger.holdings@, (from@, mint@));
            }
            return Err(LedgerError::MissingHolding);
        },
    };
    proof {
        lemma_balances_index(ledger.holdings@, fi as int);
    }
    let ti = match ledger.find_holding(to, mint) {
        Some(i) => i,
        None => {
            proof {
                lemma_balances_absent(ledger.holdings@, (to@, mint@));
            }
            return Err(LedgerError::MissingHolding);
        },
    };
    proof {
        lemma_balances_index(ledger.holdings@, ti as int);
    }
    let from_amount = ledger.holdings[fi].amount;
    if from_amount < amount {
        return Err(LedgerError::InsufficientBalance);
    }
    if fi == ti {
        return Ok(());
    }
    proof {
        assert(holding_key(ledger.holdings@[fi as int]) != holding_key(
            ledger.holdings@[ti as int],
        ));
        assert(from@ != to@);
    }
    let to_amount = ledger.holdings[ti].amount;
    if u64::MAX - to_amount < amount {
        return Err(LedgerError::BalanceOverflow);
    }
    let ghost s0 = ledger.holdings@;
    let mut debited = ledger.holdings[fi];
    debited.amount = from_amount - amount;
    ledger.holdings.set(fi, debited);
    proof {
        lemma_balances_update(s0, fi as int, debited);
    }
    let ghost s1 = ledger.holdings@;
    let mut credited = ledger.holdings[ti];
    credited.amount = to_amount + amount;
    ledger.holdings.set(ti, credited);
    proof {
        assert(holding_key(s1[ti as int]) == (to@, mint@));
        lemma_balances_update(s1, ti as int, credited);
    }
    Ok(())
}

/// What `create_token` does to the mints: records a new mint with the given
/// authority and zero supply, or reports that the identifier is taken.
pub open spec fn create_token_spec(
    m: Map<Seq<u8>, (Seq<u8>, u64)>,
    authority: Seq<u8>,
    mint: Seq<u8>,
) -> Result<Map<Seq<u8>, (Seq<u8>, u64)>, LedgerError> {
    if m.dom().contains(mint) {
        Err(LedgerError::MintAlreadyExists)
    } else {
        Ok(m.insert(mint, (authority, 0u64)))
    }
}

/// Record a new mint with `authority` as its issuing authority and zero
/// supply. The balances are untouched; on an error nothing changes.
pub fn create_token(ledger: &mut Ledger, authority: &AccountId, mint: &AccountId) -> (r: Result<
    (),
    LedgerError,
>)
    requires
        old(ledger).wf(),
    ensures
        final(ledger).wf(),
        final(ledger).balances() == old(ledger).balances(),
        match r {
            Ok(()) => create_token_spec(old(ledger).mint_records(), authority@, mint@) == Ok::<
                _,
                LedgerError,
            >(final(ledger).mint_records()),
            Err(e) => create_token_spec(old(ledger).mint_records(), authority@, mint@) == Err::<
                Map<Seq<u8>, (Seq<u8>, u64)>,
                _,
            >(e) && *final(ledger) == *old(ledger),
        },
{
    match ledger.find_mint(mint) {
        Some(i) => {
            proof {
                lemma_mints_index(ledger.mints@, i as int);
            }
            Err(LedgerError::MintAlreadyExists)
        },
        None => {
            proof {
                lemma_mints_absent(ledger.mints@, mint@);
            }
            let ghost s0 = ledger.mints@;
            let record = MintInfo { mint: *mint, authority: *authority, supply: 0 };
            ledger.mints.push(record);
            proof {
                lemma_mints_push(s0, record);
            }
            Ok(())
        },
    }
}

/// What `create_token_account` does to the balances: opens an empty holding
/// for `(owner, mint)`, or reports why it cannot.
pub open spec fn create_token_account_spec(
    b: Map<(Seq<u8>, Seq<u8>), u64>,
    m: Map<Seq<u8>, (Seq<u8>, u64)>,
    owner: Seq<u8>,
    mint: Seq<u8>,
) -> Result<Map<(Seq<u8>, Seq<u8>), u64>, LedgerError> {
    if !m.dom().contains(mint) {
        Err(LedgerError::MissingMint)
    } else if b.dom().contains((owner, mint)) {
        Err(LedgerError::HoldingAlreadyExists)
    } else {
        Ok(b.insert((owner, mint), 0u64))
    }
}

/// Open an empty holding for `(owner, mint)`. The mint must exist and the
/// holding must not; on an error nothing changes.
pub fn create_token_account(ledger: &mut Ledger, owner: &AccountId, mint: &AccountId) -> (r: Result<
    (),
    LedgerError,
>)
    requires
        old(ledger).wf(),
    ensures
        final(ledger).wf(),
        final(ledger).mint_records() == old(ledger).mint_records(),
        match r {
            Ok(()) => create_token_account_spec(
                old(ledger).balances(),
                old(ledger).mint_records(),
                owner@,
                mint@,
            ) == Ok::<_, LedgerError>(final(ledger).balances()),
            Err(e) => create_token_account_spec(
                old(ledger).balances(),
                old(ledger).mint_records(),
                owner@,
                mint@,
            ) == Err::<Map<(Seq<u8>, Seq<u8>), u64>, _>(e) && *final(ledger) == *old(ledger),
        },
{
    match ledger.find_mint(mint) {
        Some(i) => {
            proof {
                lemma_mints_index(ledger.mints@, i as int);
            }
        },
        None => {
            proof {
                lemma_mints_absent(ledger.mints@, mint@);
            }
            return Err(LedgerError::MissingMint);
        },
    }
    match ledger.find_holding(owner, mint) {
        Some(i) => {
            proof {
                lemma_balances_index(ledger.holdings@, i as int);
            }
            Err(LedgerError::HoldingAlreadyExists)
        },
        None => {
            proof {
                lemma_balances_absent(ledger.holdings@, (owner@, mint@));
            }
            let ghost s0 = ledger.holdings@;
            let holding = Holding { owner: *owner, mint: *mint, amount: 0 };
            ledger.holdings.push(holding);
            proof {
                lemma_balances_push(s0, holding);
            }
            Ok(())
        },
    }
}

/// What `mint_tokens` does: issues `amount` new units of `mint` to `to`,
/// growing both the holding and the supply, or reports why it cannot.
pub open spec fn mint_tokens_spec(
    b: Map<(Seq<u8>, Seq<u8>), u64>,
    m: Map<Seq<u8>, (Seq<u8>, u64)>,
    authority: Seq<u8>,
    mint: Seq<u8>,
    to: Seq<u8>,
    amount: u64,
) -> Result<(Map<(Seq<u8>, Seq<u8>), u64>, Map<Seq<u8>, (Seq<u8>, u64)>), LedgerError> {
    if !m.dom().contains(mint) {
        Err(LedgerError::MissingMint)
    } else if m[mint].0 != authority {
        Err(LedgerError::NotMintAuthority)
    } else if !b.dom().contains((to, mint)) {
        Err(LedgerError::MissingHolding)
    } else if m[mint].1 + amount > u64::MAX {
        Err(LedgerError::SupplyOverflow)
    } else if b[(to, mint)] + amount > u64::MAX {
        Err(LedgerError::BalanceOverflow)
    } else {
        Ok(
            (
                b.insert((to, mint), (b[(to, mint)] + amount) as u64),
                m.insert(mint, (m[mint].0, (m[mint].1 + amount) as u64)),
            ),
        )
    }
}

/// Issue `amount` new units of `mint` to `to`'s holding. Only the mint's
/// recorded authority may issue; on an error nothing changes.
pub fn mint_tokens(
    ledger: &mut Ledger,
    authority: &AccountId,
    mint: &AccountId,
    to: &AccountId,
    amount: u64,
) -> (r: Result<(), LedgerError>)
    requires
        old(ledger).wf(),
    ensures
        final(ledger).wf(),
        match r {
            Ok(()) => mint_tokens_spec(
                old(ledger).balances(),
                old(ledger).mint_records(),
                authority@,
                mint@,
                to@,
                amount,
            ) == Ok::<_, LedgerError>((final(ledger).balances(), final(ledger).mint_records())),
            Err(e) => mint_tokens_spec(
                old(ledger).balances(),
                old(ledger).mint_records(),
                authority@,
                mint@,
                to@,
                amount,
            ) == Err::<(Map<(Seq<u8>, Seq<u8>), u64>, Map<Seq<u8>, (Seq<u8>, u64)>), _>(e) && *final(ledger) == *old(ledger),
        },
{
    let mi = match ledger.find_mint(mint) {
        Some(i) => i,
        None => {
            proof {
                lemma_mints_absent(ledger.mints@, mint@);
            }
            return Err(LedgerError::MissingMint);
        },
    };
    proof {
        lemma_mints_index(ledger.mints@, mi as int);
    }
    if !key_eq(&ledger.mints[mi].authority, authority) {
        return Err(LedgerError::NotMintAuthority);
    }
    let hi = match ledger.find_holding(to, mint) {
        Some(i) => i,
        None => {
            proof {
                lemma_balances_absent(ledger.holdings@, (to@, mint@));
            }
            return Err(LedgerError::MissingHolding);
        },
    };
    proof {
        lemma_balances_index(ledger.holdings@, hi as int);
    }
    let supply = ledger.mints[mi].supply;
    if u64::MAX - supply < amount {
        return Err(LedgerError::SupplyOverflow);
    }
    let balance = ledger.holdings[hi].amount;
    if u64::MAX - balance < amount {
        return Err(LedgerError::BalanceOverflow);
    }
    let ghost h0 = ledger.holdings@;
    let mut credited = ledger.holdings[hi];
    credited.amount = balance + amount;
    ledger.holdings.set(hi, credited);
    proof {
        lemma_balances_update(h0, hi as int, credited);
    }
    let ghost m0 = ledger.mints@;
    let mut grown = ledger.mints[mi];
    grown.supply = supply + amount;
    ledger.mints.set(mi, grown);
    proof {
        lemma_mints_update(m0, mi as int, grown);
    }
    Ok(())
}

/// What `burn_tokens` does: destroys `amount` units held by `holder`,
/// shrinking both the holding and the supply, or reports why it cannot.
pub open spec fn burn_tokens_spec(
    b: Map<(Seq<u8>, Seq<u8>), u64>,
    m: Map<Seq<u8>, (Seq<u8>, u64)>,
    holder: Seq<u8>,
    mint: Seq<u8>,
    amount: u64,
) -> Result<(Map<(Seq<u8>, Seq<u8>), u64>, Map<Seq<u8>, (Seq<u8>, u64)>), LedgerError> {
    if !m.dom().contains(mint) {
        Err(LedgerError::MissingMint)
    } else if !b.dom().contains((holder, mint)) {
        Err(LedgerError::MissingHolding)
    } else if b[(holder, mint)] < amount {
        Err(LedgerError::InsufficientBalance)
    } else if m[mint].1 < amount {
        Err(LedgerError::InsufficientSupply)
    } else {
        Ok(
            (
                b.insert((holder, mint), (b[(holder, mint)] - amount) as u64),
                m.insert(mint, (m[mint].0, (m[mint].1 - amount) as u64)),
            ),
        )
    }
}

/// Destroy `amount` units of `mint` from `holder`'s holding, shrinking the
/// supply by the same amount. On an error nothing changes.
pub fn burn_tokens(ledger: &mut Ledger, holder: &AccountId, mint: &AccountId, amount: u64) -> (r:
    Result<(), LedgerError>)
    requires
        old(ledger).wf(),
    ensures
        final(ledger).wf(),
        match r {
            Ok(()) => burn_tokens_spec(
                old(ledger).balances(),
                old(ledger).mint_records(),
                holder@,
                mint@,
                amount,
            ) == Ok::<_, LedgerError>((final(ledger).balances(), final(ledger).mint_records())),
            Err(e) => burn_tokens_spec(
                old(ledger).balances(),
                old(ledger).mint_records(),
                holder@,
                mint@,
                amount,
            ) == Err::<(Map<(Seq<u8>, Seq<u8>), u64>, Map<Seq<u8>, (Seq<u8>, u64)>), _>(e) && *final(ledger) == *old(ledger),
        },
{
    let mi = match ledger.find_mint(mint) {
        Some(i) => i,
        None => {
            proof {
                lemma_mints_absent(ledger.mints@, mint@);
            }
            return Err(LedgerError::MissingMint);
        },
    };
    proof {
        lemma_mints_index(ledger.mints@, mi as int);
    }
    let hi = match ledger.find_holding(holder, mint) {
        Some(i) => i,
        None => {
            proof {
                lemma_balances_absent(ledger.holdings@, (holder@, mint@));
            }
            return Err(LedgerError::MissingHolding);
        },
    };
    proof {
        lemma_balances_index(ledger.holdings@, hi as int);
    }
    let balance = ledger.holdings[hi].amount;
    if balance < amount {
        return Err(LedgerError::InsufficientBalance);
    }
    let supply = ledger.mints[mi].supply;
    if supply < amount {
        return Err(LedgerError::InsufficientSupply);
    }
    let ghost h0 = ledger.holdings@;
    let mut debited = ledger.holdings[hi];
    debited.amount = balance - amount;
    ledger.holdings.set(hi, debited);
    proof {
        lemma_balances_update(h0, hi as int, debited);
    }
    let ghost m0 = ledger.mints@;
    let mut shrunk = ledger.mints[mi];
    shrunk.supply = supply - amount;
    ledger.mints.set(mi, shrunk);
    proof {
        lemma_mints_update(m0, mi as int, shrunk);
    }
    Ok(())
}

} // verus!
