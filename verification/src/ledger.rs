//! The ledger engine.
//!
//! A `ClientState` holds one client's balances together with the transactions
//! that may still be disputed (`history`) and those currently under dispute
//! (`disputed`). An `AppState` owns every client's state, creating accounts
//! lazily on first reference.
//!
//! The whole transition table lives in the spec function [`apply_spec`]:
//! [`execute_transaction`] promises to change the addressed account exactly
//! as that table says, to leave every other account alone, and to report
//! rejected rows through its result so that the caller can emit a diagnostic.

use vstd::prelude::*;
use std::collections::HashMap;
use crate::amount::{Amount, amount_in_range};
use crate::tx::{Tx, TxType};

verus! {

/// Why a transaction was rejected. A rejected transaction changes nothing;
/// the caller is expected to log it and carry on with the next row.
#[derive(Clone, Copy, Debug, PartialEq, Eq, Structural)]
pub enum TxError {
    /// A withdrawal asked for more than the available balance.
    InsufficientFunds,
    /// A dispute referenced a transaction identifier absent from `history`,
    /// or a resolve/chargeback referenced one absent from `disputed`.
    UnknownTx,
    /// Applying the transaction would push a balance outside the
    /// representable range of `Amount`.
    BalanceOutOfRange,
}

/// One client's balances and dispute bookkeeping.
pub struct ClientState {
    /// Funds the client may spend now.
    pub available: Amount,
    /// Funds frozen by active disputes.
    pub held: Amount,
    /// Set once a chargeback has happened; never cleared.
    pub locked: bool,
    /// Applied deposits and withdrawals, keyed by transaction identifier,
    /// that are not currently under dispute.
    pub history: HashMap<u32, Tx>,
    /// Transactions currently under dispute, keyed by transaction identifier.
    pub disputed: HashMap<u32, Tx>,
}

/// The mathematical value of a `ClientState`: exact integer balances (in
/// ten-thousandths) and the two transaction maps.
#[verifier::ext_equal]
pub ghost struct ClientView {
    pub available: int,
    pub held: int,
    pub locked: bool,
    pub history: Map<u32, Tx>,
    pub disputed: Map<u32, Tx>,
}

impl ClientView {
    /// A freshly created account: zero balances, unlocked, no history.
    pub open spec fn initial() -> ClientView {
        ClientView {
            available: 0,
            held: 0,
            locked: false,
            history: Map::empty(),
            disputed: Map::empty(),
        }
    }
}

impl View for ClientState {
    type V = ClientView;

    open spec fn view(&self) -> ClientView {
        ClientView {
            available: self.available@,
            held: self.held@,
            locked: self.locked,
            history: self.history@,
            disputed: self.disputed@,
        }
    }
}

impl ClientState {
    /// A freshly created account.
    pub fn new() -> (r: ClientState)
        ensures
            r@ == ClientView::initial(),
    {
        let r = ClientState {
            available: Amount::zero(),
            held: Amount::zero(),
            locked: false,
            history: HashMap::new(),
            disputed: HashMap::new(),
        };
        proof {
            assert(r@ =~= ClientView::initial());
        }
        r
    }
}

/// The transition table of the ledger, as one spec function: the state the
/// addressed account reaches, paired with the outcome reported to the caller.
/// A rejected transaction leaves the account exactly as it was; in
/// particular, only successfully applied deposits and withdrawals enter
/// `history` and become dispute targets. A locked account does not block
/// further processing: the lock is purely an output flag.
pub open spec fn apply_spec(pre: ClientView, tx: Tx) -> (ClientView, Result<(), TxError>) {
    match tx.tx_type {
        TxType::Deposit => {
            let navail = pre.available + tx.amount@;
            if amount_in_range(navail) {
                (
                    ClientView {
                        available: navail,
                        history: pre.history.insert(tx.tid, tx),
                        ..pre
                    },
                    Ok(()),
                )
            } else {
                (pre, Err(TxError::BalanceOutOfRange))
            }
        },
        TxType::Withdrawal => {
            if pre.available >= tx.amount@ {
                let navail = pre.available - tx.amount@;
                if amount_in_range(navail) {
                    (
                        ClientView {
                            available: navail,
                            history: pre.history.insert(tx.tid, tx),
                            ..pre
                        },
                        Ok(()),
                    )
                } else {
                    (pre, Err(TxError::BalanceOutOfRange))
                }
            } else {
                (pre, Err(TxError::InsufficientFunds))
            }
        },
        TxType::Dispute => {
            if pre.history.contains_key(tx.tid) {
                let prev = pre.history[tx.tid];
                let nheld = pre.held + prev.amount@;
                let navail = pre.available - prev.amount@;
                if amount_in_range(nheld) && amount_in_range(navail) {
                    (
                        ClientView {
                            available: navail,
                            held: nheld,
                            history: pre.history.remove(tx.tid),
                            disputed: pre.disputed.insert(tx.tid, prev),
                            ..pre
                        },
                        Ok(()),
                    )
                } else {
                    (pre, Err(TxError::BalanceOutOfRange))
                }
            } else {
                (pre, Err(TxError::UnknownTx))
            }
        },
        TxType::Resolve => {
            if pre.disputed.contains_key(tx.tid) {
                let prev = pre.disputed[tx.tid];
                let nheld = pre.held - prev.amount@;
                let navail = pre.available + prev.amount@;
                if amount_in_range(nheld) && amount_in_range(navail) {
                    (
                        ClientView {
                            available: navail,
                            held: nheld,
                            history: pre.history.insert(tx.tid, prev),
                            disputed: pre.disputed.remove(tx.tid),
                            ..pre
                        },
                        Ok(()),
                    )
                } else {
                    (pre, Err(TxError::BalanceOutOfRange))
                }
            } else {
                (pre, Err(TxError::UnknownTx))
            }
        },
        TxType::ChargeBack => {
            if pre.disputed.contains_key(tx.tid) {
                let prev = pre.disputed[tx.tid];
                let nheld = pre.held - prev.amount@;
                if amount_in_range(nheld) {
                    (
                        ClientView {
                            held: nheld,
                            locked: true,
                            history: pre.history.insert(tx.tid, prev),
                            disputed: pre.disputed.remove(tx.tid),
                            ..pre
                        },
                        Ok(()),
                    )
                } else {
                    (pre, Err(TxError::BalanceOutOfRange))
                }
            } else {
                (pre, Err(TxError::UnknownTx))
            }
        },
    }
}

/// The account state after one transaction.
pub open spec fn step(pre: ClientView, tx: Tx) -> ClientView {
    apply_spec(pre, tx).0
}

/// The outcome reported for one transaction.
pub open spec fn step_result(pre: ClientView, tx: Tx) -> Result<(), TxError> {
    apply_spec(pre, tx).1
}

/// The whole ledger: every client account seen so far, plus the client
/// identifiers in ascending order, so that output is deterministic.
pub struct AppState {
    /// Each known client's state, keyed by client identifier.
    pub clients: HashMap<u16, ClientState>,
    /// Exactly the keys of `clients`, strictly ascending.
    pub client_ids: Vec<u16>,
}

/// Whether a sequence of client identifiers is strictly ascending.
pub open spec fn strictly_ascending(s: Seq<u16>) -> bool {
    forall|i: int, j: int| 0 <= i < j < s.len() ==> s[i] < s[j]
}

impl AppState {
    /// Well-formedness: `client_ids` is strictly ascending and lists exactly
    /// the clients present in the map.
    pub open spec fn wf(&self) -> bool {
        &&& strictly_ascending(self.client_ids@)
        &&& forall|c: u16| #[trigger] self.clients@.contains_key(c) <==> self.client_ids@.contains(c)
    }

    /// Whether an account exists for `cid`.
    pub open spec fn has_client(&self, cid: u16) -> bool {
        self.clients@.contains_key(cid)
    }

    /// The state of client `cid`, or the initial state if no account exists
    /// yet — accounts are created lazily, so an absent account and a fresh
    /// one are indistinguishable.
    pub open spec fn client_view(&self, cid: u16) -> ClientView {
        if self.clients@.contains_key(cid) {
            self.clients@[cid]@
        } else {
            ClientView::initial()
        }
    }

    /// Records `cid` in the sorted identifier list, if it is not there yet.
    fn register_client(&mut self, cid: u16)
        requires
            strictly_ascending(old(self).client_ids@),
        ensures
            final(self).clients == old(self).clients,
            strictly_ascending(final(self).client_ids@),
            forall|c: u16|
                #[trigger] final(self).client_ids@.contains(c)
                    <==> (old(self).client_ids@.contains(c) || c == cid),
    {
        let ghost pre = self.client_ids@;
        let mut i: usize = 0;
        while i < self.client_ids.len() && self.client_ids[i] < cid
            invariant
                *self == *old(self),
                self.client_ids@ == pre,
                i <= pre.len(),
                forall|j: int| 0 <= j < i ==> pre[j] < cid,
                forall|p: int, q: int| 0 <= p < q < pre.len() ==> pre[p] < pre[q],
            decreases pre.len() - i,
        {
            i += 1;
        }
        if i < self.client_ids.len() && self.client_ids[i] == cid {
            proof {
                assert(pre.contains(cid));
            }
        } else {
            self.client_ids.insert(i, cid);
            proof {
                let post = self.client_ids@;
                assert forall|p: int, q: int| 0 <= p < q < post.len() implies post[p]
                    < post[q] by {
                    if q < i {
                        assert(post[p] == pre[p] && post[q] == pre[q]);
                    } else if p < i && q == i {
                        assert(post[p] == pre[p] && post[q] == cid);
                    } else if p < i && q > i {
                        assert(post[p] == pre[p] && post[q] == pre[q - 1]);
                        assert(pre[i as int] <= pre[q - 1]) by {
                            if i < q - 1 {
                                assert(pre[i as int] < pre[q - 1]);
                            }
                        }
                        assert(cid < pre[i as int]);
                    } else if p == i {
                        assert(post[p] == cid && post[q] == pre[q - 1]);
                        assert(pre[i as int] <= pre[q - 1]) by {
                            if i < q - 1 {
                                assert(pre[i as int] < pre[q - 1]);
                            }
                        }
                        assert(cid < pre[i as int]);
                    } else {
                        assert(post[p] == pre[p - 1] && post[q] == pre[q - 1]);
                    }
                }
                assert forall|c: u16| #[trigger] post.contains(c) implies (pre.contains(c) || c
                    == cid) by {
                    let k = choose|k: int| 0 <= k < post.len() && post[k] == c;
                    if k < i {
                        assert(pre[k] == c);
                    } else if k > i {
                        assert(pre[k - 1] == c);
                    }
                }
                assert forall|c: u16| pre.contains(c) || c == cid implies #[trigger] post.contains(
                    c,
                ) by {
                    if c == cid {
                        assert(post[i as int] == c);
                    } else {
                        let k = choose|k: int| 0 <= k < pre.len() && pre[k] == c;
                        if k < i {
                            assert(post[k] == c);
                        } else {
                            assert(post[k + 1] == c);
                        }
                    }
                }
            }
        }
    }
}

impl Default for AppState {
    /// An empty ledger with no accounts.
    fn default() -> (r: AppState)
        ensures
            r.wf(),
            r.clients@ == Map::<u16, ClientState>::empty(),
            r.client_ids@ == Seq::<u16>::empty(),
    {
        let r = AppState { clients: HashMap::new(), client_ids: Vec::new() };
        proof {
            assert forall|c: u16| #[trigger] r.clients@.contains_key(c) implies r.client_ids@.contains(c) by {}
            assert forall|c: u16| r.client_ids@.contains(c) implies #[trigger] r.clients@.contains_key(c) by {}
        }
        r
    }
}

/// Applies one transaction to the account it addresses.
fn apply_to_client(client: &mut ClientState, tx: Tx) -> (r: Result<(), TxError>)
    ensures
        final(client)@ == step(old(client)@, tx),
        r == step_result(old(client)@, tx),
{
    match tx.tx_type {
        TxType::Deposit => {
            match client.available.checked_add(tx.amount) {
                Some(navail) => {
                    client.available = navail;
                    client.history.insert(tx.tid, tx);
                    proof {
                        assert(client@ =~= step(old(client)@, tx));
                    }
                    Ok(())
                },
                None => Err(TxError::BalanceOutOfRange),
            }
        },
        TxType::Withdrawal => {
            if client.available.ge(&tx.amount) {
                match client.available.checked_sub(tx.amount) {
                    Some(navail) => {
                        client.available = navail;
                        client.history.insert(tx.tid, tx);
                        proof {
                            assert(client@ =~= step(old(client)@, tx));
                        }
                        Ok(())
                    },
                    None => Err(TxError::BalanceOutOfRange),
                }
            } else {
                Err(TxError::InsufficientFunds)
            }
        },
        TxType::Dispute => {
            match client.history.remove(&tx.tid) {
                Some(prev) => {
                    match (client.held.checked_add(prev.amount), client.available.checked_sub(
                        prev.amount,
                    )) {
                        (Some(nheld), Some(navail)) => {
                            client.held = nheld;
                            client.available = navail;
                            client.disputed.insert(tx.tid, prev);
                            proof {
                                assert(client@ =~= step(old(client)@, tx));
                            }
                            Ok(())
                        },
                        _ => {
                            client.history.insert(tx.tid, prev);
                            proof {
                                assert(client@ =~= old(client)@);
                            }
                            Err(TxError::BalanceOutOfRange)
                        },
                    }
                },
                None => Err(TxError::UnknownTx),
            }
        },
        TxType::Resolve => {
            match client.disputed.remove(&tx.tid) {
                Some(prev) => {
                    match (client.held.checked_sub(prev.amount), client.available.checked_add(
                        prev.amount,
                    )) {
                        (Some(nheld), Some(navail)) => {
                            client.held = nheld;
                            client.available = navail;
                            client.history.insert(tx.tid, prev);
                            proof {
                                assert(client@ =~= step(old(client)@, tx));
                            }
                            Ok(())
                        },
                        _ => {
                            client.disputed.insert(tx.tid, prev);
                            proof {
                                assert(client@ =~= old(client)@);
                            }
                            Err(TxError::BalanceOutOfRange)
                        },
                    }
                },
                None => Err(TxError::UnknownTx),
            }
        },
        TxType::ChargeBack => {
            match client.disputed.remove(&tx.tid) {
                Some(prev) => {
                    match client.held.checked_sub(prev.amount) {
                        Some(nheld) => {
                            client.held = nheld;
                            client.locked = true;
                            client.history.insert(tx.tid, prev);
                            proof {
                                assert(client@ =~= step(old(client)@, tx));
                            }
                            Ok(())
                        },
                        None => {
                            client.disputed.insert(tx.tid, prev);
                            proof {
                                assert(client@ =~= old(client)@);
                            }
                            Err(TxError::BalanceOutOfRange)
                        },
                    }
                },
                None => Err(TxError::UnknownTx),
            }
        },
    }
}

/// Replays one transaction against the ledger.
///
/// The account addressed by `tx.cid` is created on demand and moved exactly
/// as the transition table [`apply_spec`] says; every other account is left
/// untouched. A rejected transaction changes no balances; the returned error
/// tells the caller which diagnostic to emit before carrying on.
pub fn execute_transaction(app_state: &mut AppState, tx: Tx) -> (r: Result<(), TxError>)
    requires
        old(app_state).wf(),
    ensures
        final(app_state).wf(),
        r == step_result(old(app_state).client_view(tx.cid), tx),
        final(app_state).has_client(tx.cid),
        final(app_state).client_view(tx.cid) == step(old(app_state).client_view(tx.cid), tx),
        forall|c: u16|
            c != tx.cid
                ==> #[trigger] final(app_state).has_client(c) == old(app_state).has_client(c),
        forall|c: u16|
            c != tx.cid
                ==> #[trigger] final(app_state).client_view(c) == old(app_state).client_view(c),
{
    let mut client = match app_state.clients.remove(&tx.cid) {
        Some(c) => c,
        None => ClientState::new(),
    };
    let r = apply_to_client(&mut client, tx);
    app_state.clients.insert(tx.cid, client);
    app_state.register_client(tx.cid);
    proof {
        assert forall|c: u16| #[trigger] app_state.clients@.contains_key(c) implies app_state.client_ids@.contains(c) by {
            if c != tx.cid {
                assert(old(app_state).clients@.contains_key(c));
            }
        }
        assert forall|c: u16| app_state.client_ids@.contains(c) implies #[trigger] app_state.clients@.contains_key(c) by {
            if c != tx.cid {
                assert(old(app_state).client_ids@.contains(c));
            }
        }
    }
    r
}

} // verus!
