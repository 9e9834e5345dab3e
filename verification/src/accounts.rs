//! A self-contained projector that folds raw events: it remembers every
//! deposit's client and amount by transaction, and resolves dispute-class
//! amounts from that memory instead of relying on a pre-enriching store.

use crate::account::account_step;
use crate::account::balanced;
use crate::account::lemma_account_step_balanced;
use crate::account::lemma_balanced_mono;
use crate::account::lemma_balanced_range;
use crate::account::Account;
use crate::account::AccountV;
use crate::account::STEP_LIMIT;
use crate::balance_sheet::ensure_client;
use crate::balance_sheet::output_of;
use crate::balance_sheet::Output;
use crate::errors::LedgerError;
use crate::event_store::run;
use crate::event_store::run_errs;
use crate::event_store::Projector;
use crate::events::is_dispute_class;
use crate::events::Event;
use crate::events::EventType;
use crate::money::Money;
use crate::money::AMOUNT_LIMIT;
use crate::ClientID;
use crate::TransactionID;
use std::collections::BTreeMap;
use vstd::prelude::*;

verus! {

broadcast use vstd::laws_cmp::group_laws_cmp;

/// The mathematical state of a self-contained projector: the account map and
/// the remembered deposits, each a client and an amount in units, by
/// transaction.
#[verifier::ext_equal]
pub ghost struct ProjV {
    pub accounts: Map<ClientID, AccountV>,
    pub deposits: Map<TransactionID, (ClientID, int)>,
}

/// What folding one raw event does to a self-contained projector: the
/// client's account is created on first touch even when the event is then
/// rejected; a dispute-class event must name a remembered deposit of its own
/// client, whose amount it then moves; a deposit is remembered, overwriting
/// an earlier use of the same transaction.
pub open spec fn proj_step(s: ProjV, e: Event) -> (ProjV, Option<LedgerError>) {
    let m1 = ensure_client(s.accounts, e.client);
    let a = m1[e.client];
    if a.locked {
        (ProjV { accounts: m1, ..s }, Some(LedgerError::AccountLocked))
    } else if is_dispute_class(e._type) {
        if !s.deposits.contains_key(e.tx) {
            (ProjV { accounts: m1, ..s }, Some(LedgerError::NotFound))
        } else if s.deposits[e.tx].0 != e.client {
            (ProjV { accounts: m1, ..s }, Some(LedgerError::ForeignTransaction))
        } else {
            match account_step(a, e._type, e.tx, s.deposits[e.tx].1) {
                Ok(a2) => (ProjV { accounts: m1.insert(e.client, a2), ..s }, None),
                Err(er) => (ProjV { accounts: m1, ..s }, Some(er)),
            }
        }
    } else {
        match account_step(a, e._type, e.tx, e.amount_or_zero()) {
            Ok(a2) => (
                ProjV {
                    accounts: m1.insert(e.client, a2),
                    deposits: if e._type is Deposit {
                        s.deposits.insert(e.tx, (e.client, e.amount_or_zero()))
                    } else {
                        s.deposits
                    },
                },
                None,
            ),
            Err(er) => (ProjV { accounts: m1, ..s }, Some(er)),
        }
    }
}

/// Folds raw events into per-client balance records, resolving dispute
/// amounts from its own deposit memory.
pub struct AccountProjector {
    pub accounts: BTreeMap<ClientID, Account>,
    pub deposits: BTreeMap<TransactionID, (ClientID, Money)>,
    pub steps: Ghost<nat>,
}

impl View for AccountProjector {
    type V = ProjV;

    open spec fn view(&self) -> ProjV {
        ProjV {
            accounts: Map::new(
                |c: ClientID| self.accounts@.contains_key(c),
                |c: ClientID| self.accounts@[c].av(),
            ),
            deposits: Map::new(
                |t: TransactionID| self.deposits@.contains_key(t),
                |t: TransactionID| (self.deposits@[t].0, self.deposits@[t].1@),
            ),
        }
    }
}

impl AccountProjector {
    /// Account balances stay within what the folded event count allows, and
    /// every remembered amount is small enough for balance arithmetic.
    pub open spec fn wf(&self) -> bool {
        &&& self.steps@ <= STEP_LIMIT as nat
        &&& forall|c: ClientID| #[trigger]
            self.accounts@.contains_key(c) ==> balanced(self.accounts@[c].av(), self.steps@)
        &&& forall|t: TransactionID| #[trigger]
            self.deposits@.contains_key(t) ==> self.deposits@[t].1.in_bounds()
    }

    /// An empty projector: no accounts, no remembered deposits.
    pub fn new() -> (r: AccountProjector)
        ensures
            r.wf(),
            r@.accounts == Map::<ClientID, AccountV>::empty(),
            r@.deposits == Map::<TransactionID, (ClientID, int)>::empty(),
            r.steps@ == 0,
    {
        let r = AccountProjector {
            accounts: BTreeMap::new(),
            deposits: BTreeMap::new(),
            steps: Ghost(0 as nat),
        };
        proof {
            assert(r@.accounts =~= Map::<ClientID, AccountV>::empty());
            assert(r@.deposits =~= Map::<TransactionID, (ClientID, int)>::empty());
        }
        r
    }

    /// Folds a batch of raw events in order, going on past individual
    /// rejections and returning them as `(position, error)` pairs.
    pub fn load(&mut self, events: &Vec<Event>) -> (errs: Vec<(usize, LedgerError)>)
        requires
            old(self).wf(),
            old(self).steps@ + events@.len() <= STEP_LIMIT as nat,
            forall|i: int| 0 <= i < events@.len() ==> (#[trigger] events@[i]).amount_in_bounds(),
        ensures
            final(self).wf(),
            final(self)@ == run::<AccountProjector>(old(self)@, events@),
            errs@ == run_errs::<AccountProjector>(old(self)@, events@, 0),
    {
        let ghost s0 = self@;
        let ghost evs = events@;
        let mut errs: Vec<(usize, LedgerError)> = Vec::new();
        let n = events.len();
        let mut i: usize = 0;
        proof {
            assert(evs.skip(0) =~= evs);
            assert(errs@ + run_errs::<AccountProjector>(self@, evs.skip(0), 0)
                =~= run_errs::<AccountProjector>(s0, evs, 0));
        }
        while i < n
            invariant
                i <= n,
                n == events@.len(),
                evs == events@,
                self.wf(),
                self.steps@ + (n - i) <= STEP_LIMIT as nat,
                run::<AccountProjector>(s0, evs) == run::<AccountProjector>(
                    self@,
                    evs.skip(i as int),
                ),
                run_errs::<AccountProjector>(s0, evs, 0) == errs@ + run_errs::<AccountProjector>(
                    self@,
                    evs.skip(i as int),
                    i as int,
                ),
                forall|j: int| 0 <= j < evs.len() ==> (#[trigger] evs[j]).amount_in_bounds(),
            decreases n - i,
        {
            let r = self.project(&events[i]);
            proof {
                assert(evs.skip(i as int)[0] == evs[i as int]);
                assert(evs.skip(i as int).skip(1) =~= evs.skip(i as int + 1));
            }
            match r {
                Ok(()) => {},
                Err(er) => {
                    errs.push((i, er));
                    proof {
                        assert(errs@ + run_errs::<AccountProjector>(
                            self@,
                            evs.skip(i as int + 1),
                            i as int + 1,
                        ) =~= run_errs::<AccountProjector>(s0, evs, 0));
                    }
                },
            }
            i += 1;
        }
        proof {
            assert(evs.skip(n as int) =~= Seq::<Event>::empty());
            assert(errs@ + Seq::<(usize, LedgerError)>::empty() =~= errs@);
        }
        errs
    }

    /// Exports one record per account, ordered by client ascending, with
    /// `total` computed at export time.
    pub fn into_output(self) -> (out: Vec<Output>)
        requires
            self.wf(),
        ensures
            forall|j1: int, j2: int|
                0 <= j1 < j2 < out@.len() ==> out@[j1].client < out@[j2].client,
            forall|j: int|
                0 <= j < out@.len() ==> self@.accounts.contains_key(#[trigger] out@[j].client)
                    && out@[j] == output_of(out@[j].client, self@.accounts[out@[j].client]),
            forall|c: ClientID| #[trigger]
                self@.accounts.contains_key(c) ==> exists|j: int|
                    0 <= j < out@.len() && out@[j].client == c,
    {
        let mut out: Vec<Output> = Vec::new();
        let mut c: u32 = 0;
        while c < 65536
            invariant
                c <= 65536,
                self.wf(),
                forall|j: int| 0 <= j < out@.len() ==> (#[trigger] out@[j].client) < c,
                forall|j1: int, j2: int|
                    0 <= j1 < j2 < out@.len() ==> out@[j1].client < out@[j2].client,
                forall|j: int|
                    0 <= j < out@.len() ==> self@.accounts.contains_key(#[trigger] out@[j].client)
                        && out@[j] == output_of(out@[j].client, self@.accounts[out@[j].client]),
                forall|c2: ClientID|
                    c2 < c && #[trigger] self@.accounts.contains_key(c2) ==> exists|j: int|
                        0 <= j < out@.len() && out@[j].client == c2,
            decreases 65536 - c,
        {
            let cid: ClientID = c as u16;
            match self.accounts.get(&cid) {
                Some(acct) => {
                    proof {
                        lemma_balanced_range(self.accounts@[cid].av(), self.steps@);
                    }
                    let o = Output {
                        client: cid,
                        available: acct.available,
                        held: acct.held,
                        total: Money { units: acct.available.units + acct.held.units },
                        locked: acct.locked,
                    };
                    let ghost out0 = out@;
                    out.push(o);
                    proof {
                        assert(o =~= output_of(cid, self@.accounts[cid]));
                        assert forall|c2: ClientID|
                            c2 < c + 1 && #[trigger] self@.accounts.contains_key(c2)
                            implies exists|j: int|
                            0 <= j < out@.len() && out@[j].client == c2 by {
                            if c2 == cid {
                                assert(out@[out@.len() - 1].client == c2);
                            } else {
                                let j = choose|j: int|
                                    0 <= j < out0.len() && out0[j].client == c2;
                                assert(out@[j].client == c2);
                            }
                        };
                    }
                },
                None => {},
            }
            c += 1;
        }
        out
    }
}

impl Projector for AccountProjector {
    type StateV = ProjV;

    open spec fn pview(&self) -> ProjV {
        self@
    }

    open spec fn inv(&self) -> bool {
        self.wf()
    }

    open spec fn capacity(&self) -> nat {
        if self.steps@ >= STEP_LIMIT as nat {
            0
        } else {
            (STEP_LIMIT as nat - self.steps@) as nat
        }
    }

    open spec fn step_state(s: ProjV, e: Event) -> ProjV {
        proj_step(s, e).0
    }

    open spec fn step_result(s: ProjV, e: Event) -> Option<LedgerError> {
        proj_step(s, e).1
    }

    fn project(&mut self, event: &Event) -> (r: Result<(), LedgerError>) {
        let ghost s0 = self.view();
        let ghost b0 = self.accounts@;
        let ghost steps0 = self.steps@;
        let ghost m1 = ensure_client(s0.accounts, event.client);
        let client = event.client;
        let mut acct: Account = match self.accounts.remove(&client) {
            Some(a) => a,
            None => Account::new(),
        };
        proof {
            assert(acct.av() =~= m1[client]);
            assert(balanced(acct.av(), steps0));
            lemma_balanced_range(acct.av(), steps0);
        }
        self.steps = Ghost((steps0 + 1) as nat);
        let ghost a0 = acct.av();
        let mut res: Result<(), LedgerError> = Ok(());
        if acct.locked {
            res = Err(LedgerError::AccountLocked);
        } else {
            let dispute_class = match event._type {
                EventType::Dispute | EventType::Resolve | EventType::Chargeback => true,
                _ => false,
            };
            let mut amount: Money = match event.amount {
                Some(m) => m,
                None => Money { units: 0 },
            };
            let mut lookup_err: Option<LedgerError> = None;
            if dispute_class {
                match self.deposits.get(&event.tx) {
                    None => {
                        lookup_err = Some(LedgerError::NotFound);
                    },
                    Some(d) => {
                        if d.0 != event.client {
                            lookup_err = Some(LedgerError::ForeignTransaction);
                        } else {
                            amount = d.1;
                        }
                    },
                }
            }
            match lookup_err {
                Some(er) => {
                    res = Err(er);
                },
                None => {
                    let ghost amt = if dispute_class {
                        s0.deposits[event.tx].1
                    } else {
                        event.amount_or_zero()
                    };
                    proof {
                        assert(amount@ == amt);
                        assert(-AMOUNT_LIMIT <= amount.units <= AMOUNT_LIMIT);
                    }
                    match event._type {
                        EventType::Deposit => {
                            self.deposits.insert(event.tx, (event.client, amount));
                            acct.available = Money {
                                units: acct.available.units + amount.units,
                            };
                        },
                        EventType::Withdrawal => {
                            if acct.available.units >= amount.units {
                                acct.available = Money {
                                    units: acct.available.units - amount.units,
                                };
                            } else {
                                res = Err(LedgerError::InsufficientFunds);
                            }
                        },
                        EventType::Dispute => {
                            if acct.disputed.contains(&event.tx) {
                                res = Err(LedgerError::AlreadyDisputed);
                            } else {
                                acct.disputed.insert(event.tx);
                                acct.available = Money {
                                    units: acct.available.units - amount.units,
                                };
                                acct.held = Money { units: acct.held.units + amount.units };
                            }
                        },
                        EventType::Resolve => {
                            if !acct.disputed.contains(&event.tx) {
                                res = Err(LedgerError::NotDisputed);
                            } else {
                                acct.disputed.remove(&event.tx);
                                acct.available = Money {
                                    units: acct.available.units + amount.units,
                                };
                                acct.held = Money { units: acct.held.units - amount.units };
                            }
                        },
                        EventType::Chargeback => {
                            if !acct.disputed.contains(&event.tx) {
                                res = Err(LedgerError::NotDisputed);
                            } else {
                                acct.disputed.remove(&event.tx);
                                acct.held = Money { units: acct.held.units - amount.units };
                                acct.locked = true;
                            }
                        },
                    }
                    proof {
                        match account_step(a0, event._type, event.tx, amt) {
                            Ok(a2) => {
                                assert(acct.av() =~= a2);
                                lemma_account_step_balanced(
                                    a0,
                                    event._type,
                                    event.tx,
                                    amt,
                                    steps0,
                                );
                            },
                            Err(er) => {
                                assert(acct.av() =~= a0);
                                assert(res == Result::<(), LedgerError>::Err(er));
                            },
                        }
                    }
                },
            }
        }
        self.accounts.insert(client, acct);
        proof {
            let stepped = proj_step(s0, *event);
            assert(self.view().accounts =~= stepped.0.accounts);
            assert(self.view().deposits =~= stepped.0.deposits);
            assert(self.view() == stepped.0);
            assert forall|c2: ClientID| #[trigger]
                self.accounts@.contains_key(c2) implies balanced(
                self.accounts@[c2].av(),
                self.steps@,
            ) by {
                if c2 != client {
                    assert(b0.contains_key(c2));
                    assert(balanced(b0[c2].av(), steps0));
                    lemma_balanced_mono(b0[c2].av(), steps0, (steps0 + 1) as nat);
                }
            };
        }
        res
    }
}

} // verus!
