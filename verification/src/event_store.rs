//! The append-only event log: validated events in arrival order, an index
//! from `(client, tx)` to the original movement, and the replay pass that
//! drives projectors over the stored sequence.

use crate::errors::LedgerError;
use crate::events::is_dispute_class;
use crate::events::EventType;
use crate::events::Event;
use crate::ClientID;
use crate::TransactionID;
use std::collections::BTreeMap;
use vstd::prelude::*;

verus! {

broadcast use vstd::laws_cmp::group_laws_cmp;

/// Folds events into derived state, one at a time. Implementations expose
/// their mathematical state through `StateV` and promise that one `project`
/// call performs exactly one `step_state` transition and reports the error
/// that `step_result` names, so replay over any stored sequence is the
/// spec-level [`run`] of that sequence.
pub trait Projector: Sized {
    /// The mathematical state the projector maintains.
    type StateV;

    /// The state the projector is in.
    spec fn pview(&self) -> Self::StateV;

    /// The internal well-formedness every call preserves.
    spec fn inv(&self) -> bool;

    /// How many more events the projector can absorb before its balance
    /// arithmetic could leave the machine integers.
    spec fn capacity(&self) -> nat;

    /// The state after folding `e` into `s`; rejected events leave the
    /// state they found.
    spec fn step_state(s: Self::StateV, e: Event) -> Self::StateV;

    /// The error, if any, that folding `e` into `s` reports.
    spec fn step_result(s: Self::StateV, e: Event) -> Option<LedgerError>;

    /// Folds one event, or reports why it was rejected.
    fn project(&mut self, event: &Event) -> (r: Result<(), LedgerError>)
        requires
            old(self).inv(),
            old(self).capacity() >= 1,
            event.amount_in_bounds(),
        ensures
            final(self).inv(),
            final(self).capacity() + 1 >= old(self).capacity(),
            final(self).pview() == Self::step_state(old(self).pview(), *event),
            (match r {
                Ok(()) => Self::step_result(old(self).pview(), *event) is None,
                Err(er) => Self::step_result(old(self).pview(), *event) == Some(er),
            }),
    ;
}

/// The state a projector reaches after folding `events`, one by one, from `s`.
pub open spec fn run<P: Projector>(s: P::StateV, events: Seq<Event>) -> P::StateV
    decreases events.len(),
{
    if events.len() == 0 {
        s
    } else {
        run::<P>(P::step_state(s, events[0]), events.skip(1))
    }
}

/// The rejections a projector reports while folding `events` from `s`, as
/// `(position, error)` pairs; positions count from `base`.
pub open spec fn run_errs<P: Projector>(
    s: P::StateV,
    events: Seq<Event>,
    base: int,
) -> Seq<(usize, LedgerError)>
    decreases events.len(),
{
    if events.len() == 0 {
        Seq::empty()
    } else {
        let rest = run_errs::<P>(P::step_state(s, events[0]), events.skip(1), base + 1);
        match P::step_result(s, events[0]) {
            None => rest,
            Some(er) => seq![(base as usize, er)] + rest,
        }
    }
}

/// The mathematical state of an event store: the stored sequence and the
/// index from `(client, tx)` to the position of the original movement.
#[verifier::ext_equal]
pub ghost struct StoreV {
    pub events: Seq<Event>,
    pub index: Map<(ClientID, TransactionID), usize>,
}

/// What recording one event does to a store: a dispute-class event is
/// enriched with the amount of the movement it refers to, or dropped with
/// `NotFound` when there is none; deposits and withdrawals are appended and
/// indexed under their `(client, tx)` key, overwriting an earlier entry.
pub open spec fn save_step(s: StoreV, e: Event) -> (StoreV, Option<LedgerError>) {
    if is_dispute_class(e._type) {
        let k = (e.client, e.tx);
        if !s.index.contains_key(k) {
            (s, Some(LedgerError::NotFound))
        } else {
            let enriched = Event { amount: s.events[s.index[k] as int].amount, ..e };
            (StoreV { events: s.events.push(enriched), ..s }, None)
        }
    } else {
        (
            StoreV {
                events: s.events.push(e),
                index: s.index.insert((e.client, e.tx), s.events.len() as usize),
            },
            None,
        )
    }
}

/// The store reached after recording `events` one by one from `s`; events
/// that fail the index lookup are dropped and the load goes on.
pub open spec fn store_run(s: StoreV, events: Seq<Event>) -> StoreV
    decreases events.len(),
{
    if events.len() == 0 {
        s
    } else {
        store_run(save_step(s, events[0]).0, events.skip(1))
    }
}

/// The rejections reported while recording `events` from `s`, as
/// `(position, error)` pairs counted from `base`.
pub open spec fn store_run_errs(s: StoreV, events: Seq<Event>, base: int) -> Seq<
    (usize, LedgerError),
>
    decreases events.len(),
{
    if events.len() == 0 {
        Seq::empty()
    } else {
        let rest = store_run_errs(save_step(s, events[0]).0, events.skip(1), base + 1);
        match save_step(s, events[0]).1 {
            None => rest,
            Some(er) => seq![(base as usize, er)] + rest,
        }
    }
}

/// An append-only, indexed log of validated events.
pub struct EventStore {
    pub events: Vec<Event>,
    pub index: BTreeMap<(ClientID, TransactionID), usize>,
}

impl View for EventStore {
    type V = StoreV;

    open spec fn view(&self) -> StoreV {
        StoreV { events: self.events@, index: self.index@ }
    }
}

/// Every index entry points inside the log, at a deposit or withdrawal that
/// carries the entry's own `(client, tx)` key, and every stored amount is
/// small enough for balance arithmetic.
pub open spec fn store_wf(s: StoreV) -> bool {
    &&& forall|i: int| 0 <= i < s.events.len() ==> (#[trigger] s.events[i]).amount_in_bounds()
    &&& forall|k: (ClientID, TransactionID)| #[trigger]
        s.index.contains_key(k) ==> {
            &&& s.index[k] < s.events.len()
            &&& s.events[s.index[k] as int].client == k.0
            &&& s.events[s.index[k] as int].tx == k.1
            &&& !is_dispute_class(s.events[s.index[k] as int]._type)
        }
}

impl EventStore {
    /// The stored events' and index's well-formedness.
    pub open spec fn wf(&self) -> bool {
        store_wf(self@)
    }

    /// An empty store.
    pub fn new() -> (r: EventStore)
        ensures
            r.wf(),
            r@.events == Seq::<Event>::empty(),
            r@.index == Map::<(ClientID, TransactionID), usize>::empty(),
    {
        EventStore { events: Vec::new(), index: BTreeMap::new() }
    }

    /// Records one event, as [`save_step`] describes: dispute-class events
    /// are enriched from the index or rejected with `NotFound`; deposits and
    /// withdrawals are appended and indexed.
    pub fn save(&mut self, event: Event) -> (r: Result<(), LedgerError>)
        requires
            old(self).wf(),
            event.amount_in_bounds(),
        ensures
            final(self).wf(),
            final(self)@ == save_step(old(self)@, event).0,
            (match r {
                Ok(()) => save_step(old(self)@, event).1 is None,
                Err(er) => save_step(old(self)@, event).1 == Some(er),
            }),
    {
        let ghost s0 = self@;
        let dispute_class = match event._type {
            EventType::Dispute | EventType::Resolve | EventType::Chargeback => true,
            _ => false,
        };
        if dispute_class {
            let key = (event.client, event.tx);
            match self.index.get(&key) {
                None => Err(LedgerError::NotFound),
                Some(p) => {
                    let pos: usize = *p;
                    let enriched = Event { amount: self.events[pos].amount, ..event };
                    self.events.push(enriched);
                    proof {
                        assert(self@ =~= save_step(s0, event).0);
                    }
                    Ok(())
                },
            }
        } else {
            let pos = self.events.len();
            self.events.push(event);
            self.index.insert((event.client, event.tx), pos);
            proof {
                assert(self@ =~= save_step(s0, event).0);
            }
            Ok(())
        }
    }

    /// Records a batch of events in order, one [`save`] each, going on past
    /// individual rejections and returning them as `(position, error)` pairs.
    pub fn load(&mut self, events: Vec<Event>) -> (errs: Vec<(usize, LedgerError)>)
        requires
            old(self).wf(),
            forall|i: int| 0 <= i < events@.len() ==> (#[trigger] events@[i]).amount_in_bounds(),
        ensures
            final(self).wf(),
            final(self)@ == store_run(old(self)@, events@),
            errs@ == store_run_errs(old(self)@, events@, 0),
    {
        let ghost s0 = self@;
        let ghost evs = events@;
        let mut errs: Vec<(usize, LedgerError)> = Vec::new();
        let n = events.len();
        let mut i: usize = 0;
        proof {
            assert(evs.skip(0) =~= evs);
            assert(errs@ + store_run_errs(self@, evs.skip(0), 0) =~= store_run_errs(s0, evs, 0));
        }
        while i < n
            invariant
                i <= n,
                n == events@.len(),
                evs == events@,
                self.wf(),
                store_run(s0, evs) == store_run(self@, evs.skip(i as int)),
                store_run_errs(s0, evs, 0) == errs@ + store_run_errs(
                    self@,
                    evs.skip(i as int),
                    i as int,
                ),
                forall|j: int| 0 <= j < evs.len() ==> (#[trigger] evs[j]).amount_in_bounds(),
            decreases n - i,
        {
            let r = self.save(events[i]);
            proof {
                assert(evs.skip(i as int)[0] == evs[i as int]);
                assert(evs.skip(i as int).skip(1) =~= evs.skip(i as int + 1));
            }
            match r {
                Ok(()) => {},
                Err(er) => {
                    errs.push((i, er));
                    proof {
                        assert(errs@ + store_run_errs(self@, evs.skip(i as int + 1), i as int + 1)
                            =~= store_run_errs(s0, evs, 0));
                    }
                },
            }
            i += 1;
        }
        proof {
            assert(evs.skip(n as int) =~= Seq::<Event>::empty());
            assert(errs@ + Seq::<(usize, LedgerError)>::empty() =~= errs@);
        }
        errs
    }

    /// Replays the stored events, in insertion order and exactly once, into
    /// `p`: one `project` call per event, going on past rejections and
    /// returning them as `(position, error)` pairs.
    pub fn project<P: Projector>(&self, p: &mut P) -> (errs: Vec<(usize, LedgerError)>)
        requires
            self.wf(),
            old(p).inv(),
            old(p).capacity() >= self@.events.len(),
        ensures
            final(p).inv(),
            final(p).pview() == run::<P>(old(p).pview(), self@.events),
            errs@ == run_errs::<P>(old(p).pview(), self@.events, 0),
    {
        let ghost s0 = p.pview();
        let ghost evs = self@.events;
        let mut errs: Vec<(usize, LedgerError)> = Vec::new();
        let n = self.events.len();
        let mut i: usize = 0;
        proof {
            assert(evs.skip(0) =~= evs);
            assert(errs@ + run_errs::<P>(p.pview(), evs.skip(0), 0) =~= run_errs::<P>(s0, evs, 0));
        }
        while i < n
            invariant
                i <= n,
                n == self@.events.len(),
                evs == self@.events,
                self.wf(),
                p.inv(),
                p.capacity() + i >= n,
                run::<P>(s0, evs) == run::<P>(p.pview(), evs.skip(i as int)),
                run_errs::<P>(s0, evs, 0) == errs@ + run_errs::<P>(
                    p.pview(),
                    evs.skip(i as int),
                    i as int,
                ),
            decreases n - i,
        {
            proof {
                assert(evs[i as int].amount_in_bounds());
            }
            let r = p.project(&self.events[i]);
            proof {
                assert(evs.skip(i as int)[0] == evs[i as int]);
                assert(evs.skip(i as int).skip(1) =~= evs.skip(i as int + 1));
            }
            match r {
                Ok(()) => {},
                Err(er) => {
                    errs.push((i, er));
                    proof {
                        assert(errs@ + run_errs::<P>(p.pview(), evs.skip(i as int + 1), i as int + 1)
                            =~= run_errs::<P>(s0, evs, 0));
                    }
                },
            }
            i += 1;
        }
        proof {
            assert(evs.skip(n as int) =~= Seq::<Event>::empty());
            assert(errs@ + Seq::<(usize, LedgerError)>::empty() =~= errs@);
        }
        errs
    }
}

} // verus!
