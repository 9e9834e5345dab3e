//! A replay engine for client account ledgers.
//!
//! An ordered stream of deposit, withdrawal, dispute, resolve and chargeback
//! events is folded into one balance record per client. The event store keeps
//! the validated stream and resolves the amounts that dispute-class events
//! refer to; projectors fold the stream into per-client account state while
//! enforcing the dispute lifecycle and the lock that a chargeback imposes.

use vstd::prelude::*;

pub mod account;
pub mod accounts;
pub mod balance_sheet;
pub mod event_store;
pub mod errors;
pub mod events;
pub mod laws;
pub mod money;

verus! {

/// Identifies the client that an event or an account belongs to.
pub type ClientID = u16;

/// Identifies a deposit or withdrawal, and is the key that dispute-class
/// events use to refer back to it.
pub type TransactionID = u32;

} // verus!
