//! The ledger's invariants, proved once and for all over the spec-level
//! transitions that the projectors' contracts are stated in.

use crate::account::AccountV;
use crate::accounts::proj_step;
use crate::accounts::AccountProjector;
use crate::accounts::ProjV;
use crate::balance_sheet::ensure_client;
use crate::balance_sheet::sheet_step;
use crate::balance_sheet::BalanceSheet;
use crate::errors::LedgerError;
use crate::event_store::run;
use crate::events::is_dispute_class;
use crate::events::Event;
use crate::ClientID;
use vstd::prelude::*;

verus! {

/// The client's balance total, counting a missing account as zero.
pub open spec fn client_total(m: Map<ClientID, AccountV>, c: ClientID) -> int {
    if m.contains_key(c) {
        m[c].available + m[c].held
    } else {
        0
    }
}

/// No event of the sequence is a chargeback.
pub open spec fn no_chargebacks(events: Seq<Event>) -> bool {
    forall|i: int| 0 <= i < events.len() ==> !((#[trigger] events[i])._type is Chargeback)
}

/// The sum, over the accepted events of the sequence as folded from `m`, of
/// client `c`'s deposit amounts minus its withdrawal amounts.
pub open spec fn net_accepted(m: Map<ClientID, AccountV>, events: Seq<Event>, c: ClientID) -> int
    decreases events.len(),
{
    if events.len() == 0 {
        0
    } else {
        let e = events[0];
        let delta = if e.client == c && sheet_step(m, e).1 is None {
            if e._type is Deposit {
                e.amount_or_zero()
            } else if e._type is Withdrawal {
                -e.amount_or_zero()
            } else {
                0
            }
        } else {
            0
        };
        delta + net_accepted(sheet_step(m, e).0, events.skip(1), c)
    }
}

/// Disputing the same transaction twice on the same account: the second
/// dispute is rejected with `AlreadyDisputed` and leaves the account map
/// exactly as the first dispute left it.
pub proof fn lemma_double_dispute(m: Map<ClientID, AccountV>, e: Event)
    requires
        e._type is Dispute,
        sheet_step(m, e).1 is None,
    ensures
        sheet_step(sheet_step(m, e).0, e).0 == sheet_step(m, e).0,
        sheet_step(sheet_step(m, e).0, e).1 == Some(LedgerError::AlreadyDisputed),
{
}

/// The same, for the self-contained projector: its deposit memory is not
/// changed by a dispute, so the second lookup succeeds again and the
/// transition table rejects the repeat.
pub proof fn lemma_double_dispute_proj(s: ProjV, e: Event)
    requires
        e._type is Dispute,
        proj_step(s, e).1 is None,
    ensures
        proj_step(proj_step(s, e).0, e).0 == proj_step(s, e).0,
        proj_step(proj_step(s, e).0, e).1 == Some(LedgerError::AlreadyDisputed),
{
}

/// Resolving or charging back a transaction whose dispute was already
/// resolved fails with `NotDisputed` and does not change any account.
pub proof fn lemma_double_settle(m: Map<ClientID, AccountV>, e1: Event, e2: Event)
    requires
        e1._type is Resolve,
        e2._type is Resolve || e2._type is Chargeback,
        e2.client == e1.client,
        e2.tx == e1.tx,
        sheet_step(m, e1).1 is None,
    ensures
        sheet_step(sheet_step(m, e1).0, e2).0 == sheet_step(m, e1).0,
        sheet_step(sheet_step(m, e1).0, e2).1 == Some(LedgerError::NotDisputed),
{
}

/// Resolving or charging back a transaction whose dispute was already
/// charged back is also rejected without mutating balances; the chargeback
/// locked the account, so the error is the lock's.
pub proof fn lemma_settle_after_chargeback(m: Map<ClientID, AccountV>, e1: Event, e2: Event)
    requires
        e1._type is Chargeback,
        e2.client == e1.client,
        sheet_step(m, e1).1 is None,
    ensures
        sheet_step(sheet_step(m, e1).0, e2).0 == sheet_step(m, e1).0,
        sheet_step(sheet_step(m, e1).0, e2).1 == Some(LedgerError::AccountLocked),
{
    lemma_lock_finality(sheet_step(m, e1).0, e2);
}

/// Once an account is locked, every further event for that client is
/// rejected with `AccountLocked` and the account map does not change at all.
pub proof fn lemma_lock_finality(m: Map<ClientID, AccountV>, e: Event)
    requires
        m.contains_key(e.client),
        m[e.client].locked,
    ensures
        sheet_step(m, e).0 == m,
        sheet_step(m, e).1 == Some(LedgerError::AccountLocked),
{
}

/// The same, for the self-contained projector: the lock is checked before
/// any deposit lookup, so no kind of event gets past it.
pub proof fn lemma_lock_finality_proj(s: ProjV, e: Event)
    requires
        s.accounts.contains_key(e.client),
        s.accounts[e.client].locked,
    ensures
        proj_step(s, e).0 == s,
        proj_step(s, e).1 == Some(LedgerError::AccountLocked),
{
    assert(proj_step(s, e).0.accounts =~= s.accounts);
    assert(proj_step(s, e).0 == s);
}

/// Conservation: with no chargeback in the sequence, a client's total after
/// replay is its total before, plus its accepted deposits, minus its
/// accepted withdrawals. Disputes and resolves only move funds between the
/// available and held balances.
pub proof fn lemma_conservation(m: Map<ClientID, AccountV>, events: Seq<Event>, c: ClientID)
    requires
        no_chargebacks(events),
    ensures
        client_total(run::<BalanceSheet>(m, events), c) == client_total(m, c) + net_accepted(
            m,
            events,
            c,
        ),
    decreases events.len(),
{
    if events.len() == 0 {
    } else {
        let e = events[0];
        let m2 = sheet_step(m, e).0;
        let delta = if e.client == c && sheet_step(m, e).1 is None {
            if e._type is Deposit {
                e.amount_or_zero()
            } else if e._type is Withdrawal {
                -e.amount_or_zero()
            } else {
                0
            }
        } else {
            0
        };
        assert(client_total(m2, c) == client_total(m, c) + delta);
        assert(forall|i: int|
            0 <= i < events.skip(1).len() ==> events.skip(1)[i] == events[i + 1]);
        assert(no_chargebacks(events.skip(1)));
        lemma_conservation(m2, events.skip(1), c);
    }
}

/// The sum, over the accepted events of the sequence as folded from `s` by
/// the self-contained projector, of client `c`'s deposit amounts minus its
/// withdrawal amounts.
pub open spec fn net_accepted_proj(s: ProjV, events: Seq<Event>, c: ClientID) -> int
    decreases events.len(),
{
    if events.len() == 0 {
        0
    } else {
        let e = events[0];
        let delta = if e.client == c && proj_step(s, e).1 is None {
            if e._type is Deposit {
                e.amount_or_zero()
            } else if e._type is Withdrawal {
                -e.amount_or_zero()
            } else {
                0
            }
        } else {
            0
        };
        delta + net_accepted_proj(proj_step(s, e).0, events.skip(1), c)
    }
}

/// Conservation holds of the self-contained projector too: with no
/// chargeback in the sequence, a client's total after replay is its total
/// before, plus its accepted deposits, minus its accepted withdrawals.
pub proof fn lemma_conservation_proj(s: ProjV, events: Seq<Event>, c: ClientID)
    requires
        no_chargebacks(events),
    ensures
        client_total(run::<AccountProjector>(s, events).accounts, c) == client_total(s.accounts, c)
            + net_accepted_proj(s, events, c),
    decreases events.len(),
{
    if events.len() == 0 {
    } else {
        let e = events[0];
        let s2 = proj_step(s, e).0;
        let delta = if e.client == c && proj_step(s, e).1 is None {
            if e._type is Deposit {
                e.amount_or_zero()
            } else if e._type is Withdrawal {
                -e.amount_or_zero()
            } else {
                0
            }
        } else {
            0
        };
        assert(client_total(s2.accounts, c) == client_total(s.accounts, c) + delta);
        assert(forall|i: int|
            0 <= i < events.skip(1).len() ==> events.skip(1)[i] == events[i + 1]);
        assert(no_chargebacks(events.skip(1)));
        lemma_conservation_proj(s2, events.skip(1), c);
    }
}

/// Ownership isolation: a dispute-class event whose transaction is unknown,
/// or was made by another client, fails with `NotFound` or
/// `ForeignTransaction`; no balance changes, the disputing client's account
/// is at most created empty.
pub proof fn lemma_ownership_isolation(s: ProjV, e: Event)
    requires
        is_dispute_class(e._type),
        !ensure_client(s.accounts, e.client)[e.client].locked,
        !s.deposits.contains_key(e.tx) || s.deposits[e.tx].0 != e.client,
    ensures
        proj_step(s, e).0 == (ProjV { accounts: ensure_client(s.accounts, e.client), ..s }),
        proj_step(s, e).1 == Some(
            if !s.deposits.contains_key(e.tx) {
                LedgerError::NotFound
            } else {
                LedgerError::ForeignTransaction
            },
        ),
        forall|c: ClientID|
            #[trigger] client_total(proj_step(s, e).0.accounts, c) == client_total(s.accounts, c),
{
}

} // verus!
