use ledger::accounts::AccountProjector;
use ledger::balance_sheet::BalanceSheet;
use ledger::balance_sheet::Output;
use ledger::errors::LedgerError;
use ledger::event_store::EventStore;
use ledger::event_store::Projector;
use ledger::events::Event;
use ledger::money::Money;

fn table_test(events: Vec<Event>, expected: Vec<Output>) {
    let mut event_store = EventStore::new();
    for event in events {
        event_store.save(event).unwrap();
    }
    let mut balance_sheet = BalanceSheet::new();
    let _errs = event_store.project(&mut balance_sheet);
    let got = balance_sheet.into_output();
    assert_eq!(got, expected);
}

#[test]
fn test_basic() {
    table_test(
        vec![
            Event::deposit(1, 1, Money::from_int(1)),
            Event::deposit(2, 2, Money::from_int(2)),
            Event::deposit(1, 3, Money::from_int(2)),
            Event::withdraw(1, 4, Money::new(15, 1)),
            Event::withdraw(1, 5, Money::from_int(3)),
        ],
        vec![
            Output::new(1, Money::new(15, 1), Money::from_int(0), false),
            Output::new(2, Money::from_int(2), Money::from_int(0), false),
        ],
    )
}

#[test]
fn test_rejected_withdrawal_other_client() {
    table_test(
        vec![
            Event::deposit(1, 1, Money::new(10, 1)),
            Event::deposit(2, 2, Money::new(20, 1)),
            Event::deposit(1, 3, Money::new(20, 1)),
            Event::withdraw(1, 4, Money::new(15, 1)),
            Event::withdraw(2, 5, Money::new(30, 1)),
        ],
        vec![
            Output::new(1, Money::new(15, 1), Money::from_int(0), false),
            Output::new(2, Money::from_int(2), Money::from_int(0), false),
        ],
    )
}

#[test]
fn test_insufficient_funds() {
    table_test(
        vec![
            Event::deposit(1, 1, Money::from_int(1)),
            Event::withdraw(1, 2, Money::from_int(2)),
        ],
        vec![Output::new(1, Money::from_int(1), Money::from_int(0), false)],
    )
}

#[test]
fn test_dispute() {
    table_test(
        vec![Event::deposit(1, 1, Money::from_int(5)), Event::dispute(1, 1)],
        vec![Output::new(1, Money::from_int(0), Money::from_int(5), false)],
    )
}

#[test]
fn test_duplicated_dispute() {
    table_test(
        vec![
            Event::deposit(1, 1, Money::from_int(5)),
            Event::dispute(1, 1),
            Event::dispute(1, 1),
        ],
        vec![Output::new(1, Money::from_int(0), Money::from_int(5), false)],
    )
}

#[test]
fn test_resolve() {
    table_test(
        vec![
            Event::deposit(1, 1, Money::from_int(5)),
            Event::dispute(1, 1),
            Event::resolve(1, 1),
        ],
        vec![Output::new(1, Money::from_int(5), Money::from_int(0), false)],
    )
}

#[test]
fn test_duplicated_resolve() {
    table_test(
        vec![
            Event::deposit(1, 1, Money::from_int(5)),
            Event::dispute(1, 1),
            Event::resolve(1, 1),
            Event::resolve(1, 1),
        ],
        vec![Output::new(1, Money::from_int(5), Money::from_int(0), false)],
    )
}

#[test]
fn test_chargeback() {
    table_test(
        vec![
            Event::deposit(1, 1, Money::from_int(5)),
            Event::dispute(1, 1),
            Event::chargeback(1, 1),
        ],
        vec![Output::new(1, Money::from_int(0), Money::from_int(0), true)],
    )
}

#[test]
fn test_duplicated_chargeback() {
    table_test(
        vec![
            Event::deposit(1, 1, Money::from_int(5)),
            Event::dispute(1, 1),
            Event::chargeback(1, 1),
            Event::chargeback(1, 1),
        ],
        vec![Output::new(1, Money::from_int(0), Money::from_int(0), true)],
    )
}

#[test]
fn test_locking() {
    table_test(
        vec![
            Event::deposit(1, 1, Money::from_int(5)),
            Event::dispute(1, 1),
            Event::chargeback(1, 1),
            Event::deposit(1, 1, Money::from_int(5)),
            Event::deposit(1, 1, Money::from_int(3)),
        ],
        vec![Output::new(1, Money::from_int(0), Money::from_int(0), true)],
    )
}

#[test]
fn test_post_lock_deposit() {
    table_test(
        vec![
            Event::deposit(1, 1, Money::from_int(5)),
            Event::dispute(1, 1),
            Event::chargeback(1, 1),
            Event::deposit(1, 2, Money::from_int(5)),
        ],
        vec![Output::new(1, Money::from_int(0), Money::from_int(0), true)],
    )
}

#[test]
fn test_money_values() {
    assert_eq!(Money::new(15, 1).units, 15000);
    assert_eq!(Money::new(25, 4).units, 25);
    assert_eq!(Money::new(3, 0).units, 30000);
    assert_eq!(Money::from_int(-1).units, -10000);
    assert_eq!(Money::from_units(42).units, 42);
    assert_eq!(Money::zero().units, 0);
}

#[test]
fn test_output_total() {
    let o = Output::new(7, Money::new(15, 1), Money::from_int(2), false);
    assert_eq!(o.total, Money::from_units(35000));
    assert_eq!(o.available, Money::new(15, 1));
    assert_eq!(o.held, Money::from_int(2));
    assert!(!o.locked);
}

#[test]
fn test_store_not_found() {
    let mut store = EventStore::new();
    assert_eq!(store.save(Event::dispute(1, 99)), Err(LedgerError::NotFound));
    assert_eq!(store.save(Event::resolve(1, 99)), Err(LedgerError::NotFound));
    assert_eq!(store.save(Event::chargeback(1, 99)), Err(LedgerError::NotFound));
    assert!(store.events.is_empty());
}

#[test]
fn test_store_load_reports_positions() {
    let mut store = EventStore::new();
    let errs = store.load(vec![
        Event::deposit(1, 1, Money::from_int(5)),
        Event::dispute(1, 2),
        Event::dispute(1, 1),
    ]);
    assert_eq!(errs, vec![(1, LedgerError::NotFound)]);
    assert_eq!(store.events.len(), 2);
}

#[test]
fn test_foreign_dispute() {
    let mut projector = AccountProjector::new();
    let events = vec![
        Event::deposit(1, 1, Money::from_int(5)),
        Event::dispute(2, 1),
    ];
    let errs = projector.load(&events);
    assert_eq!(errs, vec![(1, LedgerError::ForeignTransaction)]);
    let got = projector.into_output();
    assert_eq!(
        got,
        vec![
            Output::new(1, Money::from_int(5), Money::from_int(0), false),
            Output::new(2, Money::from_int(0), Money::from_int(0), false),
        ]
    );
}

#[test]
fn test_projector_lifecycle() {
    let mut projector = AccountProjector::new();
    let events = vec![
        Event::deposit(1, 1, Money::from_int(5)),
        Event::deposit(1, 2, Money::from_int(3)),
        Event::dispute(1, 1),
        Event::resolve(1, 1),
        Event::dispute(1, 2),
        Event::chargeback(1, 2),
        Event::deposit(1, 3, Money::from_int(9)),
    ];
    let errs = projector.load(&events);
    assert_eq!(errs, vec![(6, LedgerError::AccountLocked)]);
    let got = projector.into_output();
    assert_eq!(got, vec![Output::new(1, Money::from_int(5), Money::from_int(0), true)]);
}

#[test]
fn test_projector_errors() {
    let mut projector = AccountProjector::new();
    assert_eq!(
        projector.project(&Event::deposit(1, 1, Money::from_int(1))),
        Ok(())
    );
    assert_eq!(
        projector.project(&Event::withdraw(1, 2, Money::from_int(2))),
        Err(LedgerError::InsufficientFunds)
    );
    assert_eq!(
        projector.project(&Event::resolve(1, 1)),
        Err(LedgerError::NotDisputed)
    );
    assert_eq!(
        projector.project(&Event::chargeback(1, 1)),
        Err(LedgerError::NotDisputed)
    );
    assert_eq!(projector.project(&Event::dispute(1, 1)), Ok(()));
    assert_eq!(
        projector.project(&Event::dispute(1, 1)),
        Err(LedgerError::AlreadyDisputed)
    );
    let got = projector.into_output();
    assert_eq!(got, vec![Output::new(1, Money::from_int(0), Money::from_int(1), false)]);
}

#[test]
fn test_locked_rejects_every_kind() {
    let mut projector = AccountProjector::new();
    let setup = vec![
        Event::deposit(1, 1, Money::from_int(5)),
        Event::dispute(1, 1),
        Event::chargeback(1, 1),
    ];
    let errs = projector.load(&setup);
    assert!(errs.is_empty());
    let later = vec![
        Event::deposit(1, 2, Money::from_int(5)),
        Event::withdraw(1, 3, Money::from_int(1)),
        Event::dispute(1, 1),
        Event::resolve(1, 1),
        Event::chargeback(1, 1),
    ];
    for event in &later {
        assert_eq!(projector.project(event), Err(LedgerError::AccountLocked));
    }
    let got = projector.into_output();
    assert_eq!(got, vec![Output::new(1, Money::from_int(0), Money::from_int(0), true)]);
}

#[test]
fn test_dispute_of_withdrawal() {
    table_test(
        vec![
            Event::deposit(1, 1, Money::from_int(5)),
            Event::withdraw(1, 2, Money::from_int(3)),
            Event::dispute(1, 2),
        ],
        vec![Output::new(1, Money::from_int(-1), Money::from_int(3), false)],
    )
}

#[test]
fn test_tx_reuse_overwrites_index() {
    table_test(
        vec![
            Event::deposit(1, 1, Money::from_int(5)),
            Event::deposit(1, 1, Money::from_int(3)),
            Event::dispute(1, 1),
        ],
        vec![Output::new(1, Money::from_int(5), Money::from_int(3), false)],
    )
}

#[test]
fn test_not_disputed_keeps_balances() {
    table_test(
        vec![
            Event::deposit(1, 1, Money::from_int(5)),
            Event::resolve(1, 1),
            Event::chargeback(1, 1),
        ],
        vec![Output::new(1, Money::from_int(5), Money::from_int(0), false)],
    )
}

#[test]
fn test_conservation_totals() {
    let events = vec![
        Event::deposit(1, 1, Money::from_int(10)),
        Event::withdraw(1, 2, Money::from_int(4)),
        Event::dispute(1, 1),
        Event::deposit(1, 3, Money::from_int(2)),
        Event::resolve(1, 1),
        Event::withdraw(1, 4, Money::from_int(20)),
    ];
    let mut store = EventStore::new();
    let errs = store.load(events);
    assert!(errs.is_empty());
    let mut sheet = BalanceSheet::new();
    let fold_errs = store.project(&mut sheet);
    assert_eq!(fold_errs, vec![(5, LedgerError::InsufficientFunds)]);
    let got = sheet.into_output();
    // accepted deposits 10 + 2 minus accepted withdrawal 4: total 8
    assert_eq!(got.len(), 1);
    assert_eq!(got[0].total, Money::from_int(8));
}

#[test]
fn test_empty_store_exports_nothing() {
    let store = EventStore::new();
    let mut sheet = BalanceSheet::new();
    let errs = store.project(&mut sheet);
    assert!(errs.is_empty());
    assert!(sheet.into_output().is_empty());
}

#[test]
fn test_two_projectors_one_replay() {
    let mut store = EventStore::new();
    let errs = store.load(vec![
        Event::deposit(1, 1, Money::from_int(5)),
        Event::dispute(1, 1),
    ]);
    assert!(errs.is_empty());
    let mut sheet = BalanceSheet::new();
    let mut other = BalanceSheet::new();
    let _ = store.project(&mut sheet);
    let _ = store.project(&mut other);
    assert_eq!(sheet.into_output(), other.into_output());
}
