//! A projector that folds pre-enriched events into one balance record per
//! client, relying on the event store to have resolved dispute amounts.

use crate::account::account_step;
use crate::account::balanced;
use crate::account::empty_account;
use crate::account::lemma_account_step_balanced;
use crate::account::lemma_balanced_mono;
use crate::account::lemma_balanced_range;
use crate::account::Account;
use crate::account::AccountV;
use crate::account::STEP_LIMIT;
use crate::errors::LedgerError;
use crate::event_store::Projector;
use crate::events::Event;
use crate::events::EventType;
use crate::money::Money;
use crate::ClientID;
use std::collections::BTreeMap;
use vstd::prelude::*;

verus! {

broadcast use vstd::laws_cmp::group_laws_cmp;

/// The exported, read-only view of one account: `total` is computed as
/// `available + held` at export time and never stored.
#[derive(Clone, Copy, Debug, PartialEq, Eq, Structural)]
pub struct Output {
    pub client: ClientID,
    pub available: Money,
    pub held: Money,
    pub total: Money,
    pub locked: bool,
}

/// The output record that account state `a` of client `c` exports.
pub open spec fn output_of(c: ClientID, a: AccountV) -> Output {
    Output {
        client: c,
        available: Money { units: a.available as i128 },
        held: Money { units: a.held as i128 },
        total: Money { units: (a.available + a.held) as i128 },
        locked: a.locked,
    }
}

impl Output {
    /// An output record with `total` derived from the two balances.
    pub fn new(client: ClientID, available: Money, held: Money, locked: bool) -> (r: Output)
        requires
            i128::MIN <= available@ + held@ <= i128::MAX,
        ensures
            r == (Output {
                client,
                available,
                held,
                total: Money { units: (available@ + held@) as i128 },
                locked,
            }),
    {
        Output {
            client,
            available,
            held,
            total: Money { units: available.units + held.units },
            locked,
        }
    }
}

/// The account map with `c` present: untouched if `c` already has an
/// account, otherwise with a fresh zero account for `c`, which is how every
/// projector creates accounts on first reference.
pub open spec fn ensure_client(m: Map<ClientID, AccountV>, c: ClientID) -> Map<ClientID, AccountV> {
    if m.contains_key(c) {
        m
    } else {
        m.insert(c, empty_account())
    }
}

/// What folding one pre-enriched event does to the account map: the client's
/// account is created on first touch even when the event is then rejected,
/// and the transition table decides the rest. A missing amount counts as
/// zero, as on raw dispute-class events.
pub open spec fn sheet_step(m: Map<ClientID, AccountV>, e: Event) -> (
    Map<ClientID, AccountV>,
    Option<LedgerError>,
) {
    let m1 = ensure_client(m, e.client);
    match account_step(m1[e.client], e._type, e.tx, e.amount_or_zero()) {
        Ok(a2) => (m1.insert(e.client, a2), None),
        Err(er) => (m1, Some(er)),
    }
}

/// Folds enriched events into per-client balance records.
pub struct BalanceSheet {
    pub accounts: BTreeMap<ClientID, Account>,
    pub steps: Ghost<nat>,
}

impl View for BalanceSheet {
    type V = Map<ClientID, AccountV>;

    open spec fn view(&self) -> Map<ClientID, AccountV> {
        Map::new(
            |c: ClientID| self.accounts@.contains_key(c),
            |c: ClientID| self.accounts@[c].av(),
        )
    }
}

impl BalanceSheet {
    /// Every account's balances stay within what the folded event count
    /// allows, so balance arithmetic stays inside the machine integers.
    pub open spec fn wf(&self) -> bool {
        &&& self.steps@ <= STEP_LIMIT as nat
        &&& forall|c: ClientID| #[trigger]
            self.accounts@.contains_key(c) ==> balanced(self.accounts@[c].av(), self.steps@)
    }

    /// An empty sheet: no accounts yet.
    pub fn new() -> (r: BalanceSheet)
        ensures
            r.wf(),
            r@ == Map::<ClientID, AccountV>::empty(),
            r.steps@ == 0,
    {
        let r = BalanceSheet { accounts: BTreeMap::new(), steps: Ghost(0 as nat) };
        proof {
            assert(r@ =~= Map::<ClientID, AccountV>::empty());
        }
        r
    }

    /// Exports one record per account, ordered by client ascending, with
    /// `total` computed at export time.
    pub fn into_output(self) -> (out: Vec<Output>)
        requires
            self.wf(),
        ensures
            forall|j1: int, j2: int|
                0 <= j1 < j2 < out@.len() ==> out@[j1].client < out@[j2].client,
            forall|j: int|
                0 <= j < out@.len() ==> self@.contains_key(#[trigger] out@[j].client) && out@[j]
                    == output_of(out@[j].client, self@[out@[j].client]),
            forall|c: ClientID| #[trigger]
                self@.contains_key(c) ==> exists|j: int|
                    0 <= j < out@.len() && out@[j].client == c,
    {
        let mut out: Vec<Output> = Vec::new();
        let mut c: u32 = 0;
        while c < 65536
            invariant
                c <= 65536,
                self.wf(),
                forall|j: int| 0 <= j < out@.len() ==> (#[trigger] out@[j].client) < c,
                forall|j1: int, j2: int|
                    0 <= j1 < j2 < out@.len() ==> out@[j1].client < out@[j2].client,
                forall|j: int|
                    0 <= j < out@.len() ==> self@.contains_key(#[trigger] out@[j].client)
                        && out@[j] == output_of(out@[j].client, self@[out@[j].client]),
                forall|c2: ClientID|
                    c2 < c && #[trigger] self@.contains_key(c2) ==> exists|j: int|
                        0 <= j < out@.len() && out@[j].client == c2,
            decreases 65536 - c,
        {
            let cid: ClientID = c as u16;
            match self.accounts.get(&cid) {
                Some(acct) => {
                    proof {
                        lemma_balanced_range(self.accounts@[cid].av(), self.steps@);
                    }
                    let o = Output {
                        client: cid,
                        available: acct.available,
                        held: acct.held,
                        total: Money { units: acct.available.units + acct.held.units },
                        locked: acct.locked,
                    };
                    let ghost out0 = out@;
                    out.push(o);
                    proof {
                        assert(o =~= output_of(cid, self@[cid]));
                        assert forall|c2: ClientID|
                            c2 < c + 1 && #[trigger] self@.contains_key(c2) implies exists|j: int|
                            0 <= j < out@.len() && out@[j].client == c2 by {
                            if c2 == cid {
                                assert(out@[out@.len() - 1].client == c2);
                            } else {
                                let j = choose|j: int|
                                    0 <= j < out0.len() && out0[j].client == c2;
                                assert(out@[j].client == c2);
                            }
                        };
                    }
                },
                None => {},
            }
            c += 1;
        }
        out
    }
}

impl Projector for BalanceSheet {
    type StateV = Map<ClientID, AccountV>;

    open spec fn pview(&self) -> Map<ClientID, AccountV> {
        self@
    }

    open spec fn inv(&self) -> bool {
        self.wf()
    }

    open spec fn capacity(&self) -> nat {
        if self.steps@ >= STEP_LIMIT as nat {
            0
        } else {
            (STEP_LIMIT as nat - self.steps@) as nat
        }
    }

    open spec fn step_state(s: Map<ClientID, AccountV>, e: Event) -> Map<ClientID, AccountV> {
        sheet_step(s, e).0
    }

    open spec fn step_result(s: Map<ClientID, AccountV>, e: Event) -> Option<LedgerError> {
        sheet_step(s, e).1
    }

    fn project(&mut self, event: &Event) -> (r: Result<(), LedgerError>) {
        let ghost m0 = self.view();
        let ghost b0 = self.accounts@;
        let ghost steps0 = self.steps@;
        let ghost m1 = ensure_client(m0, event.client);
        let client = event.client;
        let mut acct: Account = match self.accounts.remove(&client) {
            Some(a) => a,
            None => Account::new(),
        };
        proof {
            assert(acct.av() =~= m1[client]);
            assert(balanced(acct.av(), steps0));
            lemma_balanced_range(acct.av(), steps0);
        }
        self.steps = Ghost((steps0 + 1) as nat);
        let ghost a0 = acct.av();
        let mut res: Result<(), LedgerError> = Ok(());
        if acct.locked {
            res = Err(LedgerError::AccountLocked);
        } else {
            let amount: Money = match event.amount {
                Some(m) => m,
                None => Money { units: 0 },
            };
            proof {
                assert(amount@ == event.amount_or_zero());
            }
            match event._type {
                EventType::Deposit => {
                    acct.available = Money { units: acct.available.units + amount.units };
                },
                EventType::Withdrawal => {
                    if acct.available.units >= amount.units {
                        acct.available = Money { units: acct.available.units - amount.units };
                    } else {
                        res = Err(LedgerError::InsufficientFunds);
                    }
                },
                EventType::Dispute => {
                    if acct.disputed.contains(&event.tx) {
                        res = Err(LedgerError::AlreadyDisputed);
                    } else {
                        acct.disputed.insert(event.tx);
                        acct.available = Money { units: acct.available.units - amount.units };
                        acct.held = Money { units: acct.held.units + amount.units };
                    }
                },
                EventType::Resolve => {
                    if !acct.disputed.contains(&event.tx) {
                        res = Err(LedgerError::NotDisputed);
                    } else {
                        acct.disputed.remove(&event.tx);
                        acct.available = Money { units: acct.available.units + amount.units };
                        acct.held = Money { units: acct.held.units - amount.units };
                    }
                },
                EventType::Chargeback => {
                    if !acct.disputed.contains(&event.tx) {
                        res = Err(LedgerError::NotDisputed);
                    } else {
                        acct.disputed.remove(&event.tx);
                        acct.held = Money { units: acct.held.units - amount.units };
                        acct.locked = true;
                    }
                },
            }
        }
        proof {
            match account_step(a0, event._type, event.tx, event.amount_or_zero()) {
                Ok(a2) => {
                    assert(acct.av() =~= a2);
                    lemma_account_step_balanced(
                        a0,
                        event._type,
                        event.tx,
                        event.amount_or_zero(),
                        steps0,
                    );
                },
                Err(er) => {
                    assert(acct.av() =~= a0);
                    assert(res == Result::<(), LedgerError>::Err(er));
                },
            }
        }
        self.accounts.insert(client, acct);
        proof {
            assert(self.view() =~= sheet_step(m0, *event).0);
            assert forall|c2: ClientID| #[trigger]
                self.accounts@.contains_key(c2) implies balanced(
                self.accounts@[c2].av(),
                self.steps@,
            ) by {
                if c2 != client {
                    assert(b0.contains_key(c2));
                    assert(balanced(b0[c2].av(), steps0));
                    lemma_balanced_mono(b0[c2].av(), steps0, (steps0 + 1) as nat);
                }
            };
        }
        res
    }
}

} // verus!
