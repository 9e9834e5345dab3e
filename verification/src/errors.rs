//! The recoverable per-event failures of the ledger.

use vstd::prelude::*;

verus! {

/// Why one event was rejected. Every variant is recoverable: the driving
/// loop reports it and goes on with the next event.
#[derive(Clone, Copy, Debug, PartialEq, Eq, Structural)]
pub enum LedgerError {
    /// A dispute-class event refers to a transaction that is not on record.
    NotFound,
    /// A dispute-class event refers to a transaction that another client made.
    ForeignTransaction,
    /// A dispute targets a transaction that is already under dispute.
    AlreadyDisputed,
    /// A resolve or chargeback targets a transaction not currently disputed.
    NotDisputed,
    /// A withdrawal asks for more than the available balance.
    InsufficientFunds,
    /// The account was locked by an earlier chargeback.
    AccountLocked,
}

} // verus!
