//! Transaction records.
//!
//! A `Tx` is one already-decoded row of the input log: a kind, the client it
//! addresses, its transaction identifier, and — for deposits and withdrawals —
//! an amount. Dispute, resolve and chargeback rows carry no amount of their
//! own; their effect is derived from the referenced prior transaction.

use vstd::prelude::*;
use crate::amount::Amount;

verus! {

/// The five kinds of transaction the ledger understands.
#[derive(Clone, Copy, Debug, PartialEq, Eq, Structural)]
pub enum TxType {
    Deposit,
    Withdrawal,
    Dispute,
    Resolve,
    ChargeBack,
}

/// A decoded transaction record.
///
/// `cid` is the 16-bit client identifier and `tid` the 32-bit transaction
/// identifier, unique over the lifetime of the ledger. For kinds that carry
/// no amount the `amount` field is zero and never read.
#[derive(Clone, Copy, Debug, PartialEq, Eq, Structural)]
pub struct Tx {
    pub tx_type: TxType,
    pub cid: u16,
    pub tid: u32,
    pub amount: Amount,
}

impl Tx {
    /// Builds a transaction from its four fields.
    pub fn new(ty: TxType, cid: u16, tid: u32, amount: Amount) -> (r: Tx)
        ensures
            r.tx_type == ty,
            r.cid == cid,
            r.tid == tid,
            r.amount == amount,
    {
        Tx { tx_type: ty, cid, tid, amount }
    }

    /// Builds a transaction from decoded row fields; a missing amount
    /// (dispute, resolve, chargeback rows) becomes zero.
    pub fn from_parts(ty: TxType, cid: u16, tid: u32, amount: Option<Amount>) -> (r: Tx)
        ensures
            r.tx_type == ty,
            r.cid == cid,
            r.tid == tid,
            amount matches Some(a) ==> r.amount == a,
            amount is None ==> r.amount@ == 0,
    {
        let amount = match amount {
            Some(a) => a,
            None => Amount::zero(),
        };
        Tx { tx_type: ty, cid, tid, amount }
    }
}

} // verus!
