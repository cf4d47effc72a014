//! Core data types for transaction processing: transaction kinds, the
//! transaction record, per-client account state, and the engine's error type.
//!
//! Monetary amounts are exact decimals with up to four fractional digits.
//! They are represented as an unsigned count of 1/10000 currency units
//! ([`Amount`]), so all balance arithmetic is plain integer arithmetic and
//! can never suffer floating-point drift. [`crate::amount`] converts between
//! this representation and decimal text.

use vstd::prelude::*;

verus! {

/// Identifies a client account.
pub type ClientId = u16;

/// Identifies a transaction; disputes, resolves and chargebacks reuse the
/// id of the deposit they refer to.
pub type TxId = u32;

/// A monetary amount, as a count of 1/10000 currency units
/// (so `12_3456` stands for the decimal amount `12.3456`).
pub type Amount = u64;

/// The kind of a ledger event.
///
/// - `Deposit` adds funds to an account (creating it on first use).
/// - `Withdrawal` removes funds, but only if enough is available.
/// - `Dispute` freezes the funds of an earlier deposit: they move from
///   `available` to `held`; the total is unchanged.
/// - `Resolve` releases a dispute: the funds move back from `held` to
///   `available`; the total is unchanged.
/// - `Chargeback` finalizes a dispute: the funds leave `held` and `total`,
///   and the account is locked for the rest of the run.
#[derive(Debug, PartialEq, Eq, Structural, Clone, Copy)]
pub enum TxType {
    Deposit,
    Withdrawal,
    Dispute,
    Resolve,
    Chargeback,
}

/// One ledger event: its kind, the client it concerns, its transaction id,
/// and its amount. The amount is meaningful only for deposits and
/// withdrawals; the other kinds carry zero.
#[derive(Debug, PartialEq, Eq, Structural, Clone, Copy)]
pub struct Transaction {
    pub tx_type: TxType,
    pub client: ClientId,
    pub tx: TxId,
    pub amount: Amount,
}

/// The running state of one client's account.
///
/// `total` always equals `available + held`; `locked` becomes true on a
/// chargeback and never reverts. The `client` field is filled in from the
/// account table's key when records are written out; inside the engine it
/// stays at its default.
#[derive(Debug, PartialEq, Eq, Structural, Clone, Copy)]
pub struct AccountDetails {
    pub client: ClientId,
    pub available: Amount,
    pub held: Amount,
    pub total: Amount,
    pub locked: bool,
}

impl Default for AccountDetails {
    /// An empty, unlocked account with all balances zero.
    fn default() -> (r: Self)
        ensures
            r == (AccountDetails { client: 0, available: 0, held: 0, total: 0, locked: false }),
    {
        AccountDetails { client: 0, available: 0, held: 0, total: 0, locked: false }
    }
}

impl AccountDetails {
    /// A fresh account holding `balance`, all of it available.
    pub fn new_with_balance(balance: Amount) -> (r: Self)
        ensures
            r == (AccountDetails {
                client: 0,
                available: balance,
                held: 0,
                total: balance,
                locked: false,
            }),
    {
        let mut new_account = AccountDetails::default();
        new_account.available = balance;
        new_account.total = balance;
        new_account
    }

    /// The balance invariant of a single account: no balance is negative
    /// and the total is exactly the available part plus the held part.
    pub open spec fn wf(self) -> bool {
        &&& self.available >= 0
        &&& self.held >= 0
        &&& self.total >= 0
        &&& self.total == self.available + self.held
    }
}

/// The fatal errors of a run. Every business-rule violation is a silent
/// no-op; the only fatal condition is balance arithmetic leaving the
/// representable range, which aborts the whole run rather than corrupt
/// money.
///
/// Each variant names the checked operation of the transition rules that
/// failed. Only the two deposit overflows can actually occur when starting
/// from an empty ledger; the remaining variants mirror the defensive checks
/// of the rules and are proved unreachable there
/// (see [`crate::laws::lemma_only_deposit_can_fail`]).
#[derive(Debug, PartialEq, Eq, Structural, Clone, Copy)]
pub enum LedgerError {
    DepositAvailableOverflow,
    DepositTotalOverflow,
    WithdrawalTotalUnderflow,
    DisputeHeldOverflow,
    ResolveAvailableOverflow,
    ChargebackTotalUnderflow,
}

} // verus!
