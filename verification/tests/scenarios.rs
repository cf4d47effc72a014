//! End-to-end scenarios of the settlement rules, and the fatal errors a
//! run can end with.

use ledger_engine::engine::proccess_transactions;
use ledger_engine::types::{LedgerError, Transaction, TxType};

/// The amount that the decimal text denotes, in 1/10000 units.
fn amt(s: &str) -> u64 {
    ledger_engine::amount::parse_amount(s.as_bytes()).unwrap()
}

fn tx(tx_type: TxType, client: u16, tx: u32, amount: u64) -> Transaction {
    Transaction {
        tx_type,
        client,
        tx,
        amount,
    }
}

#[test]
fn single_deposit_creates_account() {
    let transactions = vec![tx(TxType::Deposit, 1, 1, amt("10.0"))];

    let accounts = proccess_transactions(&transactions).unwrap();
    let account = accounts.get(&1).expect("Account should exist");

    assert_eq!(account.available, amt("10.0"));
    assert_eq!(account.held, amt("0.0"));
    assert_eq!(account.total, amt("10.0"));
    assert!(!account.locked);
}

#[test]
fn deposits_accumulate_per_client() {
    let transactions = vec![
        tx(TxType::Deposit, 1, 1, amt("10.0")),
        tx(TxType::Deposit, 1, 2, amt("5.0")),
        tx(TxType::Deposit, 2, 3, amt("2.5")),
    ];

    let accounts = proccess_transactions(&transactions).unwrap();
    assert_eq!(accounts.len(), 2);
    assert_eq!(accounts.get(&1).unwrap().available, amt("15.0"));
    assert_eq!(accounts.get(&2).unwrap().available, amt("2.5"));
}

#[test]
fn withdrawal_from_unknown_account_is_ignored() {
    let transactions = vec![tx(TxType::Withdrawal, 7, 1, amt("1.0"))];

    let accounts = proccess_transactions(&transactions).unwrap();
    assert!(accounts.is_empty());
}

#[test]
fn dispute_with_mismatched_client_is_ignored() {
    let transactions = vec![
        tx(TxType::Deposit, 1, 1, amt("10.0")),
        tx(TxType::Deposit, 2, 2, amt("4.0")),
        tx(TxType::Dispute, 2, 1, 0), // client 2 disputes client 1's deposit
    ];

    let accounts = proccess_transactions(&transactions).unwrap();
    let first = accounts.get(&1).unwrap();
    let second = accounts.get(&2).unwrap();
    assert_eq!(first.available, amt("10.0"));
    assert_eq!(first.held, amt("0.0"));
    assert_eq!(second.available, amt("4.0"));
    assert_eq!(second.held, amt("0.0"));
}

#[test]
fn duplicate_deposit_id_overwrites_history() {
    // a duplicate deposit tx id silently overwrites the history entry, so
    // a later dispute freezes the amount of the second deposit
    let transactions = vec![
        tx(TxType::Deposit, 1, 1, amt("10.0")),
        tx(TxType::Deposit, 1, 1, amt("5.0")),
        tx(TxType::Dispute, 1, 1, 0),
    ];

    let accounts = proccess_transactions(&transactions).unwrap();
    let account = accounts.get(&1).unwrap();
    assert_eq!(account.available, amt("10.0"));
    assert_eq!(account.held, amt("5.0"));
    assert_eq!(account.total, amt("15.0"));
}

#[test]
fn locked_account_still_accepts_deposits() {
    // locking stops nothing by itself; it only marks the account
    let transactions = vec![
        tx(TxType::Deposit, 1, 1, amt("10.0")),
        tx(TxType::Dispute, 1, 1, 0),
        tx(TxType::Chargeback, 1, 1, 0),
        tx(TxType::Deposit, 1, 2, amt("3.0")),
    ];

    let accounts = proccess_transactions(&transactions).unwrap();
    let account = accounts.get(&1).unwrap();
    assert_eq!(account.available, amt("3.0"));
    assert_eq!(account.total, amt("3.0"));
    assert!(account.locked, "lock survives later events");
}

#[test]
fn resolve_twice_acts_only_once() {
    let base = vec![
        tx(TxType::Deposit, 1, 1, amt("10.0")),
        tx(TxType::Deposit, 1, 2, amt("5.0")),
        tx(TxType::Dispute, 1, 1, 0),
        tx(TxType::Dispute, 1, 2, 0),
        tx(TxType::Resolve, 1, 1, 0),
    ];
    let mut twice = base.clone();
    twice.push(tx(TxType::Resolve, 1, 1, 0));

    let once = proccess_transactions(&base).unwrap();
    let again = proccess_transactions(&twice).unwrap();

    let a = once.get(&1).unwrap();
    let b = again.get(&1).unwrap();
    assert_eq!(a.available, amt("10.0"));
    assert_eq!(a.held, amt("5.0"));
    assert_eq!(a.total, amt("15.0"));
    assert_eq!((a.available, a.held, a.total, a.locked), (b.available, b.held, b.total, b.locked));
}

#[test]
fn deposit_overflowing_available_fails_the_run() {
    let transactions = vec![
        tx(TxType::Deposit, 1, 1, u64::MAX),
        tx(TxType::Deposit, 1, 2, 1),
    ];

    let result = proccess_transactions(&transactions);
    assert_eq!(result, Err(LedgerError::DepositAvailableOverflow));
}

#[test]
fn deposit_overflowing_total_fails_the_run() {
    // held funds keep the total above the available part, so the total
    // overflows first
    let transactions = vec![
        tx(TxType::Deposit, 1, 1, amt("10.0")),
        tx(TxType::Dispute, 1, 1, 0),
        tx(TxType::Deposit, 1, 2, u64::MAX - amt("5.0")),
    ];

    let result = proccess_transactions(&transactions);
    assert_eq!(result, Err(LedgerError::DepositTotalOverflow));
}
