use ledger_engine::{
    parse_amount, parse_event, to_decimal, Account, Decimal, Event, Ledger, RecordError, TxKind,
    TxRecord,
};

fn dep(client: u16, tx: u32, amount: i64) -> Event {
    Event::Deposit { client, tx, amount }
}

fn wd(client: u16, tx: u32, amount: i64) -> Event {
    Event::Withdrawal { client, tx, amount }
}

fn acct(client: u16, available: i64, held: i64, total: i64, locked: bool) -> Account {
    Account { client, available, held, total, locked }
}

#[test]
fn amount_is_truncated_to_four_places() {
    assert_eq!(parse_amount("2.05678"), Some(20567));
    let e = parse_event("deposit", 1, 1, Some("2.05678")).unwrap();
    assert_eq!(e, dep(1, 1, 20567));
}

#[test]
fn amount_truncates_rather_than_rounds() {
    assert_eq!(parse_amount("0.99999"), Some(9999));
    assert_eq!(parse_amount("-2.05678"), Some(-20567));
}

#[test]
fn amount_plain_forms() {
    assert_eq!(parse_amount("3"), Some(30000));
    assert_eq!(parse_amount("3.5"), Some(35000));
    assert_eq!(parse_amount("+1.25"), Some(12500));
    assert_eq!(parse_amount(".5"), Some(5000));
    assert_eq!(parse_amount("7."), Some(70000));
    assert_eq!(parse_amount("0.0001"), Some(1));
    assert_eq!(parse_amount("12.345"), Some(123450));
}

#[test]
fn amount_rejects_other_text() {
    assert_eq!(parse_amount(""), None);
    assert_eq!(parse_amount("."), None);
    assert_eq!(parse_amount("-"), None);
    assert_eq!(parse_amount("abc"), None);
    assert_eq!(parse_amount("1e3"), None);
    assert_eq!(parse_amount("1.2.3"), None);
    assert_eq!(parse_amount("1.2x"), None);
    assert_eq!(parse_amount(" 1"), None);
}

#[test]
fn amount_largest_size() {
    assert_eq!(parse_amount("922337203685477.5807"), Some(i64::MAX));
    assert_eq!(parse_amount("-922337203685477.5807"), Some(-i64::MAX));
    assert_eq!(parse_amount("922337203685477.5808"), None);
    assert_eq!(parse_amount("922337203685478"), None);
    assert_eq!(parse_amount("99999999999999999999999"), None);
}

#[test]
fn record_errors() {
    assert_eq!(parse_event("deposit", 1, 1, None), Err(RecordError::MissingAmount));
    assert_eq!(parse_event("withdrawal", 1, 1, None), Err(RecordError::MissingAmount));
    assert_eq!(parse_event("deposit", 1, 1, Some("x")), Err(RecordError::BadAmount));
    assert_eq!(parse_event("dispute", 1, 1, Some("x")), Err(RecordError::BadAmount));
}

#[test]
fn record_kinds() {
    assert_eq!(parse_event("withdrawal", 2, 9, Some("1.5")), Ok(wd(2, 9, 15000)));
    assert_eq!(parse_event("dispute", 2, 9, None), Ok(Event::Dispute { client: 2, tx: 9 }));
    assert_eq!(parse_event("resolve", 2, 9, None), Ok(Event::Resolve { client: 2, tx: 9 }));
    assert_eq!(
        parse_event("chargeback", 2, 9, None),
        Ok(Event::Chargeback { client: 2, tx: 9 })
    );
    assert_eq!(parse_event("Deposit", 2, 9, Some("1")), Ok(Event::Unknown));
    assert_eq!(parse_event("refund", 2, 9, None), Ok(Event::Unknown));
}

#[test]
fn decimal_parts() {
    assert_eq!(to_decimal(35000), Decimal { negative: false, whole: 3, fraction: 5000 });
    assert_eq!(to_decimal(-20567), Decimal { negative: true, whole: 2, fraction: 567 });
    assert_eq!(to_decimal(0), Decimal { negative: false, whole: 0, fraction: 0 });
    assert_eq!(
        to_decimal(i64::MIN),
        Decimal { negative: true, whole: 922337203685477, fraction: 5808 }
    );
}

#[test]
fn deposit_dispute_resolve_scenario() {
    let mut l = Ledger::new();
    l.apply(dep(1, 1, 35000));
    l.apply(Event::Dispute { client: 1, tx: 1 });
    l.apply(Event::Resolve { client: 1, tx: 1 });
    assert_eq!(l.account(1), Some(acct(1, 35000, 0, 35000, false)));
}

#[test]
fn deposit_dispute_chargeback_scenario() {
    let mut l = Ledger::new();
    l.apply(dep(1, 1, 10000));
    l.apply(Event::Dispute { client: 1, tx: 1 });
    l.apply(Event::Chargeback { client: 1, tx: 1 });
    assert_eq!(l.account(1), Some(acct(1, 0, 0, 0, true)));
    l.apply(dep(1, 2, 50000));
    l.apply(wd(1, 3, 1));
    l.apply(Event::Resolve { client: 1, tx: 1 });
    assert_eq!(l.account(1), Some(acct(1, 0, 0, 0, true)));
    assert_eq!(l.transaction(2), None);
}

#[test]
fn withdrawal_beyond_available_scenario() {
    let mut l = Ledger::new();
    l.apply(dep(1, 1, 20000));
    l.apply(wd(1, 2, 50000));
    assert_eq!(l.account(1), Some(acct(1, 20000, 0, 20000, false)));
    assert_eq!(
        l.transaction(2),
        Some(TxRecord { kind: TxKind::Withdrawal, client: 1, amount: 50000, disputed: false })
    );
}

#[test]
fn withdrawal_without_account_scenario() {
    let mut l = Ledger::new();
    l.apply(wd(8, 1, 10000));
    assert_eq!(l.account(8), None);
    assert!(l.accounts().is_empty());
}

#[test]
fn balance_identity_holds_throughout() {
    let events = [
        dep(1, 1, 30000),
        dep(2, 2, 12345),
        Event::Dispute { client: 1, tx: 1 },
        wd(1, 3, 1),
        Event::Resolve { client: 1, tx: 1 },
        wd(1, 4, 10000),
        Event::Dispute { client: 2, tx: 2 },
        Event::Chargeback { client: 2, tx: 2 },
        Event::Dispute { client: 1, tx: 4 },
    ];
    let mut l = Ledger::new();
    for e in events {
        l.apply(e);
        for a in l.accounts() {
            assert_eq!(a.total, a.available + a.held);
        }
    }
}

#[test]
fn locked_account_ignores_every_event() {
    let mut l = Ledger::new();
    l.apply(dep(3, 1, 10000));
    l.apply(dep(3, 2, 20000));
    l.apply(Event::Dispute { client: 3, tx: 1 });
    l.apply(Event::Chargeback { client: 3, tx: 1 });
    let frozen = l.account(3).unwrap();
    assert!(frozen.locked);
    l.apply(dep(3, 5, 1));
    l.apply(wd(3, 6, 1));
    l.apply(Event::Dispute { client: 3, tx: 2 });
    l.apply(Event::Resolve { client: 3, tx: 1 });
    l.apply(Event::Chargeback { client: 3, tx: 1 });
    assert_eq!(l.account(3), Some(frozen));
}

#[test]
fn second_resolve_changes_nothing() {
    let mut once = Ledger::new();
    once.apply(dep(1, 1, 25000));
    once.apply(Event::Dispute { client: 1, tx: 1 });
    once.apply(Event::Resolve { client: 1, tx: 1 });
    let mut twice = Ledger::new();
    twice.apply(dep(1, 1, 25000));
    twice.apply(Event::Dispute { client: 1, tx: 1 });
    twice.apply(Event::Resolve { client: 1, tx: 1 });
    twice.apply(Event::Resolve { client: 1, tx: 1 });
    assert_eq!(once.account(1), twice.account(1));
    assert_eq!(once.transaction(1), twice.transaction(1));
    assert_eq!(twice.account(1), Some(acct(1, 25000, 0, 25000, false)));
}

#[test]
fn dispute_of_withdrawal_moves_nothing_but_resolve_does() {
    let mut l = Ledger::new();
    l.apply(dep(1, 1, 30000));
    l.apply(wd(1, 2, 10000));
    l.apply(Event::Dispute { client: 1, tx: 2 });
    assert_eq!(l.account(1), Some(acct(1, 20000, 0, 20000, false)));
    l.apply(Event::Resolve { client: 1, tx: 2 });
    assert_eq!(l.account(1), Some(acct(1, 30000, -10000, 20000, false)));
}

#[test]
fn repeated_dispute_shifts_twice() {
    let mut l = Ledger::new();
    l.apply(dep(1, 1, 10000));
    l.apply(Event::Dispute { client: 1, tx: 1 });
    l.apply(Event::Dispute { client: 1, tx: 1 });
    assert_eq!(l.account(1), Some(acct(1, -10000, 20000, 10000, false)));
}

#[test]
fn resolve_or_chargeback_without_dispute_is_denied() {
    let mut l = Ledger::new();
    l.apply(dep(1, 1, 10000));
    l.apply(Event::Resolve { client: 1, tx: 1 });
    l.apply(Event::Chargeback { client: 1, tx: 1 });
    l.apply(Event::Dispute { client: 1, tx: 77 });
    l.apply(Event::Dispute { client: 2, tx: 1 });
    assert_eq!(l.account(1), Some(acct(1, 10000, 0, 10000, false)));
    assert_eq!(l.account(2), None);
}

#[test]
fn balance_out_of_range_is_refused() {
    let mut l = Ledger::new();
    l.apply(dep(1, 1, i64::MAX));
    l.apply(dep(1, 2, 1));
    assert_eq!(l.account(1), Some(acct(1, i64::MAX, 0, i64::MAX, false)));
    assert_eq!(l.transaction(2), None);
}

#[test]
fn equal_amount_withdrawal_empties_account() {
    let mut l = Ledger::new();
    l.apply(dep(1, 1, 20000));
    l.apply(wd(1, 2, 20000));
    assert_eq!(l.account(1), Some(acct(1, 0, 0, 0, false)));
}

#[test]
fn accounts_lists_each_client_once() {
    let mut l = Ledger::new();
    l.apply(dep(1, 1, 10));
    l.apply(dep(2, 2, 20));
    l.apply(dep(1, 3, 30));
    let mut all = l.accounts();
    all.sort_by_key(|a| a.client);
    assert_eq!(all, vec![acct(1, 40, 0, 40, false), acct(2, 20, 0, 20, false)]);
}
