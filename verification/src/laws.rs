//! The global guarantees of the transaction rules, proved once of the
//! model and therefore holding of everything the engine can compute: the
//! balance invariant, monotonicity of the lock, the silent no-op guards,
//! and idempotence of resolving.

use vstd::prelude::*;

use crate::model::{
    apply_transaction, initial_ledger, ledger_wf, replay, run_ledger, LedgerModel,
};
use crate::types::{ClientId, LedgerError, Transaction, TxType};

verus! {

/// One step keeps every account well formed: for every reachable account,
/// `available`, `held` and `total` stay non-negative and
/// `total == available + held`.
pub proof fn lemma_apply_preserves_wf(s: LedgerModel, t: Transaction)
    requires
        ledger_wf(s),
    ensures
        apply_transaction(s, t) matches Ok(s2) ==> ledger_wf(s2),
{
    if apply_transaction(s, t) is Ok {
        let s2 = apply_transaction(s, t)->Ok_0;
        assert forall|c: ClientId| s2.accounts.contains_key(c) implies (
        #[trigger] s2.accounts[c]).wf() by {
            if s.accounts.contains_key(c) {
                assert(s.accounts[c].wf());
            }
        }
    }
}

/// Replaying any event sequence from a well-formed state ends (when it
/// ends without a fatal error) in a well-formed state.
pub proof fn lemma_replay_preserves_wf(s: LedgerModel, ts: Seq<Transaction>)
    requires
        ledger_wf(s),
    ensures
        replay(s, ts) matches Ok(s2) ==> ledger_wf(s2),
    decreases ts.len(),
{
    if ts.len() > 0 {
        lemma_replay_preserves_wf(s, ts.drop_last());
        if replay(s, ts.drop_last()) is Ok {
            lemma_apply_preserves_wf(replay(s, ts.drop_last())->Ok_0, ts.last());
        }
    }
}

/// The balance invariant: after a whole run, every account satisfies
/// `available >= 0`, `held >= 0`, `total >= 0` and
/// `total == available + held`. Reachable intermediate states are covered
/// by instantiating this with a prefix of the event sequence.
pub proof fn lemma_run_wf(ts: Seq<Transaction>)
    ensures
        run_ledger(ts) matches Ok(s) ==> ledger_wf(s),
{
    assert(ledger_wf(initial_ledger()));
    lemma_replay_preserves_wf(initial_ledger(), ts);
}

/// One step never unlocks an account: a client locked before an event is
/// still locked after it.
pub proof fn lemma_apply_locked_monotone(s: LedgerModel, t: Transaction, c: ClientId)
    requires
        s.accounts.contains_key(c),
        s.accounts[c].locked,
    ensures
        apply_transaction(s, t) matches Ok(s2) ==> s2.accounts.contains_key(c)
            && s2.accounts[c].locked,
{
}

/// The lock is monotonic over a whole run: once a client's account is
/// locked, it stays locked through every later event.
pub proof fn lemma_replay_locked_monotone(s: LedgerModel, ts: Seq<Transaction>, c: ClientId)
    requires
        s.accounts.contains_key(c),
        s.accounts[c].locked,
    ensures
        replay(s, ts) matches Ok(s2) ==> s2.accounts.contains_key(c) && s2.accounts[c].locked,
    decreases ts.len(),
{
    if ts.len() > 0 {
        lemma_replay_locked_monotone(s, ts.drop_last(), c);
        if replay(s, ts.drop_last()) is Ok {
            lemma_apply_locked_monotone(replay(s, ts.drop_last())->Ok_0, ts.last(), c);
        }
    }
}

/// A dispute, resolve or chargeback that references a transaction id the
/// deposit history does not know leaves the whole state unchanged.
pub proof fn lemma_unknown_tx_is_noop(s: LedgerModel, t: Transaction)
    requires
        t.tx_type is Dispute || t.tx_type is Resolve || t.tx_type is Chargeback,
        !s.history.contains_key(t.tx),
    ensures
        apply_transaction(s, t) == Ok::<LedgerModel, LedgerError>(s),
{
}

/// A dispute, resolve or chargeback whose client does not match the client
/// recorded for the referenced deposit leaves the whole state unchanged.
pub proof fn lemma_client_mismatch_is_noop(s: LedgerModel, t: Transaction)
    requires
        t.tx_type is Dispute || t.tx_type is Resolve || t.tx_type is Chargeback,
        s.history.contains_key(t.tx),
        s.history[t.tx].client != t.client,
    ensures
        apply_transaction(s, t) == Ok::<LedgerModel, LedgerError>(s),
{
}

/// A resolve or chargeback of a transaction with no open dispute — never
/// disputed, already resolved, or already settled by a chargeback — leaves
/// the whole state unchanged.
pub proof fn lemma_settled_tx_is_noop(s: LedgerModel, t: Transaction)
    requires
        t.tx_type is Resolve || t.tx_type is Chargeback,
        !s.disputed.contains(t.tx),
    ensures
        apply_transaction(s, t) == Ok::<LedgerModel, LedgerError>(s),
{
}

/// A dispute of a transaction whose funds are no longer available — for
/// example one already under dispute, or already settled by a chargeback
/// with nothing deposited since — leaves the whole state unchanged. The
/// rules guard a dispute by available funds alone, so a dispute of a
/// settled transaction is accepted again once `available` covers its
/// amount; this statement therefore asks that it does not.
pub proof fn lemma_unfunded_dispute_is_noop(s: LedgerModel, t: Transaction)
    requires
        t.tx_type is Dispute,
        s.history.contains_key(t.tx),
        s.accounts.contains_key(t.client) && s.history[t.tx].client == t.client
            ==> s.accounts[t.client].available < s.history[t.tx].amount,
    ensures
        apply_transaction(s, t) == Ok::<LedgerModel, LedgerError>(s),
{
}

/// From a well-formed state, only a deposit can abort the run: every other
/// event either takes effect or is a silent no-op, and its defensive
/// arithmetic checks can never fire.
pub proof fn lemma_only_deposit_can_fail(s: LedgerModel, t: Transaction)
    requires
        ledger_wf(s),
        !(t.tx_type is Deposit),
    ensures
        apply_transaction(s, t) is Ok,
{
    if s.accounts.contains_key(t.client) {
        assert(s.accounts[t.client].wf());
    }
}

/// Resolving is idempotent: applying the same resolve twice in a row has
/// effect only the first time. The first application never aborts, and the
/// second leaves the state of the first unchanged (after a successful
/// resolve the transaction id is no longer under dispute).
pub proof fn lemma_resolve_idempotent(s: LedgerModel, t: Transaction)
    requires
        ledger_wf(s),
        t.tx_type is Resolve,
    ensures
        apply_transaction(s, t) is Ok,
        apply_transaction(s, t) matches Ok(s1) ==> apply_transaction(s1, t) == Ok::<
            LedgerModel,
            LedgerError,
        >(s1),
{
    lemma_only_deposit_can_fail(s, t);
}

/// A run that fails keeps failing: once some prefix of the events aborts
/// with a fatal error, replaying the whole sequence gives that same error.
pub proof fn lemma_replay_prefix_err(s: LedgerModel, ts: Seq<Transaction>, j: int)
    requires
        0 <= j <= ts.len(),
        replay(s, ts.take(j)) is Err,
    ensures
        replay(s, ts) == replay(s, ts.take(j)),
    decreases ts.len(),
{
    if ts.len() == j {
        assert(ts.take(j) =~= ts);
    } else {
        assert(ts.drop_last().take(j) =~= ts.take(j));
        lemma_replay_prefix_err(s, ts.drop_last(), j);
    }
}

} // verus!
