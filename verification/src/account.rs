//! Per-client account state and the transition table that folds one event
//! into it.

use crate::errors::LedgerError;
use crate::events::EventType;
use crate::money::Money;
use crate::money::AMOUNT_LIMIT;
use crate::TransactionID;
use std::collections::BTreeSet;
use vstd::prelude::*;

verus! {

broadcast use vstd::laws_cmp::group_laws_cmp;

/// How many events a projector may fold in one lifetime. Balances change by
/// at most [`AMOUNT_LIMIT`] units per accepted event, so this cap keeps every
/// balance inside an `i128`.
pub const STEP_LIMIT: u64 = 0xFFFF_FFFF_FFFF_FFFF;

/// The mathematical state of one account: spendable and frozen balances in
/// units, the set of transactions under open dispute, and the terminal lock.
#[verifier::ext_equal]
pub ghost struct AccountV {
    pub available: int,
    pub held: int,
    pub disputed: Set<TransactionID>,
    pub locked: bool,
}

/// The state an account is created in on first touch.
pub open spec fn empty_account() -> AccountV {
    AccountV { available: 0, held: 0, disputed: Set::empty(), locked: false }
}

/// The transition table. Folds one event of `kind`, referring to `tx` and
/// moving `amount` units, into account state `a`: either the next state or
/// the error that rejects the event and leaves the account as it was.
pub open spec fn account_step(
    a: AccountV,
    kind: EventType,
    tx: TransactionID,
    amount: int,
) -> Result<AccountV, LedgerError> {
    if a.locked {
        Err(LedgerError::AccountLocked)
    } else {
        match kind {
            EventType::Deposit => Ok(AccountV { available: a.available + amount, ..a }),
            EventType::Withdrawal => if a.available >= amount {
                Ok(AccountV { available: a.available - amount, ..a })
            } else {
                Err(LedgerError::InsufficientFunds)
            },
            EventType::Dispute => if a.disputed.contains(tx) {
                Err(LedgerError::AlreadyDisputed)
            } else {
                Ok(
                    AccountV {
                        available: a.available - amount,
                        held: a.held + amount,
                        disputed: a.disputed.insert(tx),
                        ..a
                    },
                )
            },
            EventType::Resolve => if !a.disputed.contains(tx) {
                Err(LedgerError::NotDisputed)
            } else {
                Ok(
                    AccountV {
                        available: a.available + amount,
                        held: a.held - amount,
                        disputed: a.disputed.remove(tx),
                        ..a
                    },
                )
            },
            EventType::Chargeback => if !a.disputed.contains(tx) {
                Err(LedgerError::NotDisputed)
            } else {
                Ok(
                    AccountV {
                        held: a.held - amount,
                        disputed: a.disputed.remove(tx),
                        locked: true,
                        ..a
                    },
                )
            },
        }
    }
}

/// Both balances stay within `steps` accepted events' worth of amounts.
pub open spec fn balanced(a: AccountV, steps: nat) -> bool {
    &&& -(steps * (AMOUNT_LIMIT as int)) <= a.available <= steps * (AMOUNT_LIMIT as int)
    &&& -(steps * (AMOUNT_LIMIT as int)) <= a.held <= steps * (AMOUNT_LIMIT as int)
}

/// Balance bounds widen as more events are allowed for.
pub proof fn lemma_balanced_mono(a: AccountV, s1: nat, s2: nat)
    requires
        balanced(a, s1),
        s1 <= s2,
    ensures
        balanced(a, s2),
{
    assert(s1 * (AMOUNT_LIMIT as int) <= s2 * (AMOUNT_LIMIT as int)) by (nonlinear_arith)
        requires
            s1 <= s2,
            AMOUNT_LIMIT > 0,
    ;
}

/// Within the step cap, balances stay well inside an `i128`.
pub proof fn lemma_balanced_range(a: AccountV, s: nat)
    requires
        balanced(a, s),
        s <= STEP_LIMIT as nat,
    ensures
        -0x2000_0000_0000_0000_0000_0000_0000_0000 <= a.available
            <= 0x2000_0000_0000_0000_0000_0000_0000_0000,
        -0x2000_0000_0000_0000_0000_0000_0000_0000 <= a.held
            <= 0x2000_0000_0000_0000_0000_0000_0000_0000,
{
    assert(s * (AMOUNT_LIMIT as int) <= (STEP_LIMIT as nat) * (AMOUNT_LIMIT as int))
        by (nonlinear_arith)
        requires
            s <= STEP_LIMIT as nat,
            AMOUNT_LIMIT > 0,
    ;
}

/// An accepted event moves each balance by at most the amount it carries,
/// so one more step's allowance covers the new state.
pub proof fn lemma_account_step_balanced(
    a: AccountV,
    kind: EventType,
    tx: TransactionID,
    amount: int,
    s: nat,
)
    requires
        balanced(a, s),
        -(AMOUNT_LIMIT as int) <= amount <= AMOUNT_LIMIT as int,
        account_step(a, kind, tx, amount) is Ok,
    ensures
        balanced(account_step(a, kind, tx, amount).unwrap(), (s + 1) as nat),
{
    assert(((s + 1) as nat) * (AMOUNT_LIMIT as int) == s * (AMOUNT_LIMIT as int) + (
    AMOUNT_LIMIT as int)) by (nonlinear_arith);
}

/// One client's in-memory account record.
#[derive(Debug)]
pub struct Account {
    pub available: Money,
    pub held: Money,
    pub disputed: BTreeSet<TransactionID>,
    pub locked: bool,
}

impl Account {
    /// The mathematical state this record stands for.
    pub open spec fn av(&self) -> AccountV {
        AccountV {
            available: self.available@,
            held: self.held@,
            disputed: self.disputed@,
            locked: self.locked,
        }
    }

    /// A fresh account: zero balances, nothing disputed, not locked.
    pub fn new() -> (r: Account)
        ensures
            r.av() == empty_account(),
    {
        let r = Account {
            available: Money { units: 0 },
            held: Money { units: 0 },
            disputed: BTreeSet::new(),
            locked: false,
        };
        proof {
            assert(r.av() =~= empty_account());
        }
        r
    }
}

} // verus!
