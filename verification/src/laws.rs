//! Properties of the transition table.
//!
//! Each lemma here states, over [`step`] and [`step_result`], a guarantee
//! that the ledger gives for whole transaction chains: exact deposit sums,
//! the overdraw guard, the dispute/resolve round trip, the chargeback
//! effect, and the no-op behaviour of references to unknown transactions.
//! [`execute_transaction`](crate::ledger::execute_transaction) promises to
//! move every account by `step`, so these carry over to the executable
//! engine.

use vstd::prelude::*;
use crate::amount::amount_in_range;
use crate::ledger::{step, step_result, ClientView, TxError};
use crate::tx::{Tx, TxType};

verus! {

/// The account state after replaying a sequence of transactions in order.
pub open spec fn run(pre: ClientView, txs: Seq<Tx>) -> ClientView
    decreases txs.len(),
{
    if txs.len() == 0 {
        pre
    } else {
        run(step(pre, txs[0]), txs.drop_first())
    }
}

/// The exact sum of the amounts carried by a sequence of transactions.
pub open spec fn sum_amounts(txs: Seq<Tx>) -> int
    decreases txs.len(),
{
    if txs.len() == 0 {
        0
    } else {
        txs[0].amount@ + sum_amounts(txs.drop_first())
    }
}

proof fn lemma_sum_cons(t: Tx, s: Seq<Tx>)
    ensures
        sum_amounts(seq![t] + s) == t.amount@ + sum_amounts(s),
{
    let c = seq![t] + s;
    assert(c[0] == t);
    assert(c.drop_first() =~= s);
}

/// A sequence of deposits adds exactly the sum of its amounts to the
/// available balance — fixed-point arithmetic has no rounding drift — and
/// touches neither the held balance nor the lock. The second premise says
/// that no prefix of the chain overflows the representable range, which is
/// what makes every deposit accepted.
pub proof fn lemma_deposits_sum(pre: ClientView, txs: Seq<Tx>)
    requires
        forall|i: int| 0 <= i < txs.len() ==> (#[trigger] txs[i]).tx_type is Deposit,
        forall|n: int|
            1 <= n <= txs.len() ==> amount_in_range(
                pre.available + sum_amounts(#[trigger] txs.subrange(0, n)),
            ),
    ensures
        run(pre, txs).available == pre.available + sum_amounts(txs),
        run(pre, txs).held == pre.held,
        run(pre, txs).locked == pre.locked,
    decreases txs.len(),
{
    if txs.len() == 0 {
    } else {
        let t0 = txs[0];
        let rest = txs.drop_first();
        assert(txs.subrange(0, 1) =~= seq![t0]);
        assert(seq![t0].drop_first() =~= Seq::<Tx>::empty());
        assert(sum_amounts(Seq::<Tx>::empty()) == 0);
        assert(sum_amounts(seq![t0]) == t0.amount@);
        assert(sum_amounts(txs.subrange(0, 1)) == t0.amount@);
        assert(amount_in_range(pre.available + t0.amount@));
        let mid = step(pre, t0);
        assert(mid.available == pre.available + t0.amount@);
        assert forall|n: int| 1 <= n <= rest.len() implies amount_in_range(
            mid.available + sum_amounts(#[trigger] rest.subrange(0, n)),
        ) by {
            assert(txs.subrange(0, n + 1) =~= seq![t0] + rest.subrange(0, n));
            lemma_sum_cons(t0, rest.subrange(0, n));
            assert(amount_in_range(pre.available + sum_amounts(txs.subrange(0, n + 1))));
        }
        lemma_deposits_sum(mid, rest);
        assert(txs =~= seq![t0] + rest);
        lemma_sum_cons(t0, rest);
    }
}

/// The overdraw guard: starting from a non-negative available balance, a
/// withdrawal never drives it below zero. It takes effect — subtracting
/// exactly its amount — only when the balance covers it; otherwise the
/// account is left unchanged and the insufficient-funds diagnostic is
/// reported.
pub proof fn lemma_withdrawal_never_overdraws(pre: ClientView, tx: Tx)
    requires
        tx.tx_type is Withdrawal,
        pre.available >= 0,
    ensures
        step(pre, tx).available >= 0,
        step_result(pre, tx) is Ok ==> pre.available >= tx.amount@ && step(pre, tx).available
            == pre.available - tx.amount@,
        step_result(pre, tx) is Err ==> step(pre, tx) == pre,
        pre.available < tx.amount@ ==> step(pre, tx) == pre && step_result(pre, tx) == Err::<
            (),
            TxError,
        >(TxError::InsufficientFunds),
{
}

/// A rejected transaction — whatever its kind and whatever the reason —
/// leaves the account exactly as it was.
pub proof fn lemma_rejected_tx_is_noop(pre: ClientView, tx: Tx)
    ensures
        step_result(pre, tx) is Err ==> step(pre, tx) == pre,
{
}

/// Disputing a transaction and then resolving the same transaction is an
/// identity on the available and held balances (and leaves the lock alone):
/// the resolve puts back exactly the amount the dispute froze.
pub proof fn lemma_dispute_resolve_roundtrip(pre: ClientView, dtx: Tx, rtx: Tx)
    requires
        dtx.tx_type is Dispute,
        rtx.tx_type is Resolve,
        rtx.tid == dtx.tid,
        amount_in_range(pre.held),
        amount_in_range(pre.available),
        pre.history.contains_key(dtx.tid),
        amount_in_range(pre.held + pre.history[dtx.tid].amount@),
        amount_in_range(pre.available - pre.history[dtx.tid].amount@),
    ensures
        step_result(pre, dtx) is Ok,
        step_result(step(pre, dtx), rtx) is Ok,
        step(step(pre, dtx), rtx).available == pre.available,
        step(step(pre, dtx), rtx).held == pre.held,
        step(step(pre, dtx), rtx).locked == pre.locked,
{
    let mid = step(pre, dtx);
    assert(mid.disputed == pre.disputed.insert(dtx.tid, pre.history[dtx.tid]));
    assert(mid.disputed.contains_key(rtx.tid));
    assert(mid.disputed[rtx.tid] == pre.history[dtx.tid]);
}

/// Disputing a transaction of amount `A` and then charging it back removes
/// exactly `A` from the held balance, locks the account, and never restores
/// `A` to the available balance: the available balance stays where the
/// dispute left it, `A` below its pre-dispute value.
pub proof fn lemma_dispute_chargeback(pre: ClientView, dtx: Tx, cbtx: Tx)
    requires
        dtx.tx_type is Dispute,
        cbtx.tx_type is ChargeBack,
        cbtx.tid == dtx.tid,
        amount_in_range(pre.held),
        pre.history.contains_key(dtx.tid),
        amount_in_range(pre.held + pre.history[dtx.tid].amount@),
        amount_in_range(pre.available - pre.history[dtx.tid].amount@),
    ensures
        step_result(pre, dtx) is Ok,
        step_result(step(pre, dtx), cbtx) is Ok,
        step(step(pre, dtx), cbtx).held == step(pre, dtx).held
            - pre.history[dtx.tid].amount@,
        step(step(pre, dtx), cbtx).held == pre.held,
        step(step(pre, dtx), cbtx).locked,
        step(step(pre, dtx), cbtx).available == step(pre, dtx).available,
        step(step(pre, dtx), cbtx).available == pre.available - pre.history[dtx.tid].amount@,
{
    let mid = step(pre, dtx);
    assert(mid.disputed == pre.disputed.insert(dtx.tid, pre.history[dtx.tid]));
    assert(mid.disputed.contains_key(cbtx.tid));
    assert(mid.disputed[cbtx.tid] == pre.history[dtx.tid]);
}

/// Disputing a transaction identifier that is not in the account's history
/// changes nothing; the unknown-transaction diagnostic is reported.
pub proof fn lemma_dispute_unknown_is_noop(pre: ClientView, tx: Tx)
    requires
        tx.tx_type is Dispute,
        !pre.history.contains_key(tx.tid),
    ensures
        step(pre, tx) == pre,
        step_result(pre, tx) == Err::<(), TxError>(TxError::UnknownTx),
{
}

/// Resolving or charging back a transaction identifier that is not under
/// dispute changes neither balances nor the lock; the unknown-transaction
/// diagnostic is reported.
pub proof fn lemma_unknown_dispute_ref_is_noop(pre: ClientView, tx: Tx)
    requires
        tx.tx_type is Resolve || tx.tx_type is ChargeBack,
        !pre.disputed.contains_key(tx.tid),
    ensures
        step(pre, tx) == pre,
        step_result(pre, tx) == Err::<(), TxError>(TxError::UnknownTx),
{
}

} // verus!
