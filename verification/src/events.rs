//! The immutable input records of the ledger.

use crate::money::Money;
use crate::ClientID;
use crate::TransactionID;
use vstd::prelude::*;

verus! {

/// The five kinds of event the ledger replays.
#[derive(Clone, Copy, Debug, PartialEq, Eq, Structural)]
pub enum EventType {
    Deposit,
    Withdrawal,
    Dispute,
    Resolve,
    Chargeback,
}

/// Whether events of this kind refer back to an earlier transaction instead
/// of carrying an amount of their own.
pub open spec fn is_dispute_class(kind: EventType) -> bool {
    kind is Dispute || kind is Resolve || kind is Chargeback
}

/// One client action. `amount` is present on deposits and withdrawals as
/// submitted; dispute-class events arrive without one and have it filled in
/// from the transaction they refer to before they are stored.
#[derive(Clone, Copy, Debug)]
pub struct Event {
    pub _type: EventType,
    pub client: ClientID,
    pub tx: TransactionID,
    pub amount: Option<Money>,
}

impl Event {
    /// The amount the event carries, taking a missing amount as zero, which
    /// is how the projectors read it.
    pub open spec fn amount_or_zero(self) -> int {
        match self.amount {
            Some(m) => m@,
            None => 0,
        }
    }

    /// Whether the carried amount, if any, is small enough for balance
    /// arithmetic.
    pub open spec fn amount_in_bounds(self) -> bool {
        match self.amount {
            Some(m) => m.in_bounds(),
            None => true,
        }
    }

    /// A deposit of `amount` for `client`, recorded under `tx`.
    pub fn deposit(client: ClientID, tx: TransactionID, amount: Money) -> (e: Event)
        ensures
            e == (Event { _type: EventType::Deposit, client, tx, amount: Some(amount) }),
    {
        Event { _type: EventType::Deposit, client, tx, amount: Some(amount) }
    }

    /// A withdrawal of `amount` for `client`, recorded under `tx`.
    pub fn withdraw(client: ClientID, tx: TransactionID, amount: Money) -> (e: Event)
        ensures
            e == (Event { _type: EventType::Withdrawal, client, tx, amount: Some(amount) }),
    {
        Event { _type: EventType::Withdrawal, client, tx, amount: Some(amount) }
    }

    /// A dispute by `client` of the transaction recorded under `tx`.
    pub fn dispute(client: ClientID, tx: TransactionID) -> (e: Event)
        ensures
            e == (Event { _type: EventType::Dispute, client, tx, amount: None }),
    {
        Event { _type: EventType::Dispute, client, tx, amount: None }
    }

    /// A resolution by `client` of its open dispute on `tx`.
    pub fn resolve(client: ClientID, tx: TransactionID) -> (e: Event)
        ensures
            e == (Event { _type: EventType::Resolve, client, tx, amount: None }),
    {
        Event { _type: EventType::Resolve, client, tx, amount: None }
    }

    /// A chargeback by `client` of its open dispute on `tx`.
    pub fn chargeback(client: ClientID, tx: TransactionID) -> (e: Event)
        ensures
            e == (Event { _type: EventType::Chargeback, client, tx, amount: None }),
    {
        Event { _type: EventType::Chargeback, client, tx, amount: None }
    }
}

} // verus!
