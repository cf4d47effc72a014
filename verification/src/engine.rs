//! The executable settlement engine: a single pass over the event
//! sequence, proved to compute exactly the fold of the model's transition
//! function.

use vstd::prelude::*;

use std::collections::{BTreeMap, BTreeSet};

use crate::laws::{lemma_apply_preserves_wf, lemma_replay_prefix_err};
use crate::model::{initial_ledger, ledger_wf, run_ledger, LedgerModel};
use crate::types::{AccountDetails, ClientId, LedgerError, Transaction, TxId, TxType};

verus! {

broadcast use {vstd::std_specs::btree::group_btree_axioms, vstd::laws_cmp::group_laws_cmp};

/// The final snapshot of a run: the account of every client that was ever
/// the target of a deposit.
pub type Accounts = BTreeMap<ClientId, AccountDetails>;

/// Processes an ordered sequence of transactions against an initially
/// empty ledger and returns the final account table, or the fatal error
/// that aborted the run.
///
/// The result is exactly what the model's fold computes: on success the
/// returned table is the account component of `run_ledger`, and the run
/// fails precisely when the fold does, with the same error. Every account
/// of the result satisfies the balance invariant.
pub fn proccess_transactions(transactions: &Vec<Transaction>) -> (r: Result<Accounts, LedgerError>)
    ensures
        (match r {
            Ok(accounts) => run_ledger(transactions@) matches Ok(s) && accounts@ == s.accounts,
            Err(e) => run_ledger(transactions@) == Err::<LedgerModel, LedgerError>(e),
        }),
        r matches Ok(accounts) ==> forall|c: ClientId|
            accounts@.contains_key(c) ==> (#[trigger] accounts@[c]).wf(),
{
    let mut accounts: Accounts = BTreeMap::new();
    let mut deposit_history: BTreeMap<TxId, Transaction> = BTreeMap::new();
    let mut disputed_transactions: BTreeSet<TxId> = BTreeSet::new();

    let n: usize = transactions.len();
    let mut i: usize = 0;
    while i < n
        invariant
            n == transactions@.len(),
            i <= n,
            run_ledger(transactions@.take(i as int)) == Ok::<LedgerModel, LedgerError>(
                LedgerModel {
                    accounts: accounts@,
                    history: deposit_history@,
                    disputed: disputed_transactions@,
                },
            ),
            ledger_wf(
                LedgerModel {
                    accounts: accounts@,
                    history: deposit_history@,
                    disputed: disputed_transactions@,
                },
            ),
        decreases n - i,
    {
        let ghost pre = LedgerModel {
            accounts: accounts@,
            history: deposit_history@,
            disputed: disputed_transactions@,
        };
        let tx = transactions[i];
        proof {
            assert(transactions@.take(i + 1).drop_last() =~= transactions@.take(i as int));
            lemma_apply_preserves_wf(pre, tx);
        }
        match tx.tx_type {
            TxType::Deposit => {
                let existing: Option<AccountDetails> = match accounts.get(&tx.client) {
                    Some(account) => Some(*account),
                    None => None,
                };
                match existing {
                    Some(account) => {
                        if tx.amount > u64::MAX - account.available {
                            proof {
                                lemma_replay_prefix_err(
                                    initial_ledger(),
                                    transactions@,
                                    i + 1,
                                );
                            }
                            return Err(LedgerError::DepositAvailableOverflow);
                        }
                        if tx.amount > u64::MAX - account.total {
                            proof {
                                lemma_replay_prefix_err(
                                    initial_ledger(),
                                    transactions@,
                                    i + 1,
                                );
                            }
                            return Err(LedgerError::DepositTotalOverflow);
                        }
                        let updated = AccountDetails {
                            available: account.available + tx.amount,
                            total: account.total + tx.amount,
                            ..account
                        };
                        accounts.insert(tx.client, updated);
                    },
                    None => {
                        accounts.insert(tx.client, AccountDetails::new_with_balance(tx.amount));
                    },
                }
                deposit_history.insert(tx.tx, tx);
            },
            TxType::Withdrawal => {
                let existing: Option<AccountDetails> = match accounts.get(&tx.client) {
                    Some(account) => Some(*account),
                    None => None,
                };
                if let Some(account) = existing {
                    if tx.amount <= account.available {
                        let updated = AccountDetails {
                            available: account.available - tx.amount,
                            total: account.total - tx.amount,
                            ..account
                        };
                        accounts.insert(tx.client, updated);
                    }
                }
            },
            TxType::Dispute => {
                let existing: Option<AccountDetails> = match accounts.get(&tx.client) {
                    Some(account) => Some(*account),
                    None => None,
                };
                if let Some(account) = existing {
                    let referenced: Option<Transaction> = match deposit_history.get(&tx.tx) {
                        Some(deposit) => Some(*deposit),
                        None => None,
                    };
                    if let Some(disputed_tx) = referenced {
                        if disputed_tx.client == tx.client && account.available
                            >= disputed_tx.amount {
                            let updated = AccountDetails {
                                available: account.available - disputed_tx.amount,
                                held: account.held + disputed_tx.amount,
                                ..account
                            };
                            accounts.insert(tx.client, updated);
                            disputed_transactions.insert(tx.tx);
                        }
                    }
                }
            },
            TxType::Resolve => {
                let existing: Option<AccountDetails> = match accounts.get(&tx.client) {
                    Some(account) => Some(*account),
                    None => None,
                };
                if let Some(account) = existing {
                    let referenced: Option<Transaction> = match deposit_history.get(&tx.tx) {
                        Some(deposit) => Some(*deposit),
                        None => None,
                    };
                    if let Some(original) = referenced {
                        if original.client == tx.client && disputed_transactions.contains(&tx.tx)
                            && account.held >= original.amount {
                            let updated = AccountDetails {
                                available: account.available + original.amount,
                                held: account.held - original.amount,
                                ..account
                            };
                            accounts.insert(tx.client, updated);
                            disputed_transactions.remove(&tx.tx);
                        }
                    }
                }
            },
            TxType::Chargeback => {
                let existing: Option<AccountDetails> = match accounts.get(&tx.client) {
                    Some(account) => Some(*account),
                    None => None,
                };
                if let Some(account) = existing {
                    let referenced: Option<Transaction> = match deposit_history.get(&tx.tx) {
                        Some(deposit) => Some(*deposit),
                        None => None,
                    };
                    if let Some(original) = referenced {
                        if original.client == tx.client && disputed_transactions.contains(&tx.tx)
                            && account.held >= original.amount {
                            let updated = AccountDetails {
                                total: account.total - original.amount,
                                held: account.held - original.amount,
                                locked: true,
                                ..account
                            };
                            accounts.insert(tx.client, updated);
                            disputed_transactions.remove(&tx.tx);
                        }
                    }
                }
            },
        }
        i = i + 1;
    }
    proof {
        assert(transactions@.take(n as int) =~= transactions@);
        let fin = LedgerModel {
            accounts: accounts@,
            history: deposit_history@,
            disputed: disputed_transactions@,
        };
        assert forall|c: ClientId| accounts@.contains_key(c) implies (
        #[trigger] accounts@[c]).wf() by {
            assert(fin.accounts.contains_key(c));
            assert(fin.accounts[c].wf());
        }
    }
    Ok(accounts)
}

} // verus!
