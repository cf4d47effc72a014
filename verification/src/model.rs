//! The mathematical model of the ledger: an abstract state and a pure
//! transition function, one step per event.
//!
//! [`apply_transaction`] is the single source of truth for the transaction
//! rules. The executable engine is proved to compute exactly
//! [`run_ledger`], the fold of [`apply_transaction`] over the event
//! sequence, and the global laws in [`crate::laws`] are proved of the same
//! function.

use vstd::prelude::*;

use crate::types::{AccountDetails, ClientId, LedgerError, Transaction, TxId, TxType};

verus! {

/// The full state of the engine between two events: the account of every
/// client seen so far, the deposit history (transaction id to the original
/// deposit; entries are never removed), and the set of transaction ids
/// currently under an open dispute.
#[verifier::ext_equal]
pub ghost struct LedgerModel {
    pub accounts: Map<ClientId, AccountDetails>,
    pub history: Map<TxId, Transaction>,
    pub disputed: Set<TxId>,
}

/// The state before any event: no accounts, no history, no open disputes.
pub open spec fn initial_ledger() -> LedgerModel {
    LedgerModel { accounts: Map::empty(), history: Map::empty(), disputed: Set::empty() }
}

/// Every account of the state satisfies its balance invariant.
pub open spec fn ledger_wf(s: LedgerModel) -> bool {
    forall|c: ClientId| s.accounts.contains_key(c) ==> (#[trigger] s.accounts[c]).wf()
}

/// A deposit creates the account if absent, with the whole amount
/// available; otherwise it adds the amount to `available` and `total`.
/// Either way the deposit is recorded in the history under its id (a
/// duplicate deposit id silently overwrites the earlier entry). The run
/// fails if a balance would leave the representable range.
pub open spec fn apply_deposit(s: LedgerModel, t: Transaction) -> Result<
    LedgerModel,
    LedgerError,
> {
    if s.accounts.contains_key(t.client) {
        let a = s.accounts[t.client];
        if a.available + t.amount > u64::MAX {
            Err(LedgerError::DepositAvailableOverflow)
        } else if a.total + t.amount > u64::MAX {
            Err(LedgerError::DepositTotalOverflow)
        } else {
            let updated = AccountDetails {
                available: (a.available + t.amount) as u64,
                total: (a.total + t.amount) as u64,
                ..a
            };
            Ok(LedgerModel {
                accounts: s.accounts.insert(t.client, updated),
                history: s.history.insert(t.tx, t),
                ..s
            })
        }
    } else {
        let created = AccountDetails {
            client: 0,
            available: t.amount,
            held: 0,
            total: t.amount,
            locked: false,
        };
        Ok(LedgerModel {
            accounts: s.accounts.insert(t.client, created),
            history: s.history.insert(t.tx, t),
            ..s
        })
    }
}

/// A withdrawal removes its amount from `available` and `total`, but only
/// if the account exists and has that much available; otherwise it is a
/// silent no-op.
pub open spec fn apply_withdrawal(s: LedgerModel, t: Transaction) -> Result<
    LedgerModel,
    LedgerError,
> {
    if s.accounts.contains_key(t.client) {
        let a = s.accounts[t.client];
        if t.amount <= a.available {
            if a.total < t.amount {
                Err(LedgerError::WithdrawalTotalUnderflow)
            } else {
                let updated = AccountDetails {
                    available: (a.available - t.amount) as u64,
                    total: (a.total - t.amount) as u64,
                    ..a
                };
                Ok(LedgerModel { accounts: s.accounts.insert(t.client, updated), ..s })
            }
        } else {
            Ok(s)
        }
    } else {
        Ok(s)
    }
}

/// A dispute freezes the funds of the referenced deposit: they move from
/// `available` to `held` and the id joins the disputed set. It proceeds
/// only if the account exists, the deposit is in the history, its client
/// matches, and the funds to freeze are still available; otherwise it is a
/// silent no-op.
pub open spec fn apply_dispute(s: LedgerModel, t: Transaction) -> Result<
    LedgerModel,
    LedgerError,
> {
    if s.accounts.contains_key(t.client) && s.history.contains_key(t.tx) {
        let a = s.accounts[t.client];
        let d = s.history[t.tx];
        if d.client == t.client && a.available >= d.amount {
            if a.held + d.amount > u64::MAX {
                Err(LedgerError::DisputeHeldOverflow)
            } else {
                let updated = AccountDetails {
                    available: (a.available - d.amount) as u64,
                    held: (a.held + d.amount) as u64,
                    ..a
                };
                Ok(LedgerModel {
                    accounts: s.accounts.insert(t.client, updated),
                    disputed: s.disputed.insert(t.tx),
                    ..s
                })
            }
        } else {
            Ok(s)
        }
    } else {
        Ok(s)
    }
}

/// A resolve releases an open dispute: the frozen funds move back from
/// `held` to `available` and the id leaves the disputed set. It proceeds
/// only if the account exists, the deposit is in the history, its client
/// matches, the id is under an open dispute, and `held` covers the amount;
/// otherwise it is a silent no-op.
pub open spec fn apply_resolve(s: LedgerModel, t: Transaction) -> Result<
    LedgerModel,
    LedgerError,
> {
    if s.accounts.contains_key(t.client) && s.history.contains_key(t.tx) {
        let a = s.accounts[t.client];
        let d = s.history[t.tx];
        if d.client == t.client && s.disputed.contains(t.tx) && a.held >= d.amount {
            if a.available + d.amount > u64::MAX {
                Err(LedgerError::ResolveAvailableOverflow)
            } else {
                let updated = AccountDetails {
                    available: (a.available + d.amount) as u64,
                    held: (a.held - d.amount) as u64,
                    ..a
                };
                Ok(LedgerModel {
                    accounts: s.accounts.insert(t.client, updated),
                    disputed: s.disputed.remove(t.tx),
                    ..s
                })
            }
        } else {
            Ok(s)
        }
    } else {
        Ok(s)
    }
}

/// A chargeback finalizes an open dispute: the frozen funds leave `held`
/// and `total`, the account is locked, and the id leaves the disputed set.
/// Its guards are those of a resolve; otherwise it is a silent no-op.
pub open spec fn apply_chargeback(s: LedgerModel, t: Transaction) -> Result<
    LedgerModel,
    LedgerError,
> {
    if s.accounts.contains_key(t.client) && s.history.contains_key(t.tx) {
        let a = s.accounts[t.client];
        let d = s.history[t.tx];
        if d.client == t.client && s.disputed.contains(t.tx) && a.held >= d.amount {
            if a.total < d.amount {
                Err(LedgerError::ChargebackTotalUnderflow)
            } else {
                let updated = AccountDetails {
                    total: (a.total - d.amount) as u64,
                    held: (a.held - d.amount) as u64,
                    locked: true,
                    ..a
                };
                Ok(LedgerModel {
                    accounts: s.accounts.insert(t.client, updated),
                    disputed: s.disputed.remove(t.tx),
                    ..s
                })
            }
        } else {
            Ok(s)
        }
    } else {
        Ok(s)
    }
}

/// One step of the state machine: the effect of a single event on the
/// ledger, or the fatal error that aborts the run.
pub open spec fn apply_transaction(s: LedgerModel, t: Transaction) -> Result<
    LedgerModel,
    LedgerError,
> {
    match t.tx_type {
        TxType::Deposit => apply_deposit(s, t),
        TxType::Withdrawal => apply_withdrawal(s, t),
        TxType::Dispute => apply_dispute(s, t),
        TxType::Resolve => apply_resolve(s, t),
        TxType::Chargeback => apply_chargeback(s, t),
    }
}

/// The fold of [`apply_transaction`] over an event sequence, starting from
/// `s`: the state after replaying every event in order, or the first fatal
/// error.
pub open spec fn replay(s: LedgerModel, ts: Seq<Transaction>) -> Result<LedgerModel, LedgerError>
    decreases ts.len(),
{
    if ts.len() == 0 {
        Ok(s)
    } else {
        match replay(s, ts.drop_last()) {
            Ok(m) => apply_transaction(m, ts.last()),
            Err(e) => Err(e),
        }
    }
}

/// A whole run: the event sequence replayed against the empty ledger.
pub open spec fn run_ledger(ts: Seq<Transaction>) -> Result<LedgerModel, LedgerError> {
    replay(initial_ledger(), ts)
}

} // verus!
