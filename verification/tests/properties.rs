//! Concrete checks of the guarantees the ledger states for whole chains:
//! exact deposit sums, the overdraw guard, dispute round trips, chargeback
//! effects, and every rejection reason.

use ledger::{execute_transaction, Amount, AppState, BasicError, Tx, TxType, TxError};

#[test]
fn deposit_sums_are_exact_in_decimal() {
    // one tenth plus two tenths is exactly three tenths in decimal fixed point
    let mut app_state = AppState::default();
    let _ = execute_transaction(&mut app_state, Tx::new(TxType::Deposit, 1, 1, Amount::from_raw(1000)));
    let _ = execute_transaction(&mut app_state, Tx::new(TxType::Deposit, 1, 2, Amount::from_raw(2000)));
    let _ = execute_transaction(&mut app_state, Tx::new(TxType::Deposit, 1, 3, Amount::from_raw(1)));
    assert_eq!(app_state.clients.get(&1).unwrap().available, Amount::from_raw(3001));
    assert_eq!(app_state.clients.get(&1).unwrap().held, Amount::from_raw(0));
}

#[test]
fn overdraw_is_rejected_and_changes_nothing() {
    let mut app_state = AppState::default();
    let _ = execute_transaction(&mut app_state, Tx::new(TxType::Deposit, 1, 1, Amount::from_raw(10000)));
    let r = execute_transaction(&mut app_state, Tx::new(TxType::Withdrawal, 1, 2, Amount::from_raw(10001)));
    assert_eq!(r, Err(TxError::InsufficientFunds));
    assert_eq!(app_state.clients.get(&1).unwrap().available, Amount::from_raw(10000));
}

#[test]
fn dispute_resolve_round_trip_restores_balances() {
    let mut app_state = AppState::default();
    let _ = execute_transaction(&mut app_state, Tx::new(TxType::Deposit, 1, 1, Amount::from_raw(30000)));
    let _ = execute_transaction(&mut app_state, Tx::new(TxType::Deposit, 1, 2, Amount::from_raw(12345)));
    let _ = execute_transaction(&mut app_state, Tx::new(TxType::Dispute, 1, 2, Amount::zero()));
    let _ = execute_transaction(&mut app_state, Tx::new(TxType::Resolve, 1, 2, Amount::zero()));
    let client_state = app_state.clients.get(&1).unwrap();
    assert_eq!(client_state.available, Amount::from_raw(42345));
    assert_eq!(client_state.held, Amount::from_raw(0));
    assert_eq!(client_state.locked, false);
}

#[test]
fn chargeback_removes_held_funds_and_locks() {
    let mut app_state = AppState::default();
    let _ = execute_transaction(&mut app_state, Tx::new(TxType::Deposit, 1, 1, Amount::from_raw(30000)));
    let _ = execute_transaction(&mut app_state, Tx::new(TxType::Deposit, 1, 2, Amount::from_raw(12345)));
    let _ = execute_transaction(&mut app_state, Tx::new(TxType::Dispute, 1, 2, Amount::zero()));
    let _ = execute_transaction(&mut app_state, Tx::new(TxType::ChargeBack, 1, 2, Amount::zero()));
    let client_state = app_state.clients.get(&1).unwrap();
    // the disputed amount is gone for good: not restored to available
    assert_eq!(client_state.available, Amount::from_raw(30000));
    assert_eq!(client_state.held, Amount::from_raw(0));
    assert_eq!(client_state.locked, true);
}

#[test]
fn unknown_references_are_rejected() {
    let mut app_state = AppState::default();
    let _ = execute_transaction(&mut app_state, Tx::new(TxType::Deposit, 1, 1, Amount::from_raw(10000)));
    let r = execute_transaction(&mut app_state, Tx::new(TxType::Dispute, 1, 9, Amount::zero()));
    assert_eq!(r, Err(TxError::UnknownTx));
    let r = execute_transaction(&mut app_state, Tx::new(TxType::Resolve, 1, 1, Amount::zero()));
    assert_eq!(r, Err(TxError::UnknownTx));
    let r = execute_transaction(&mut app_state, Tx::new(TxType::ChargeBack, 1, 1, Amount::zero()));
    assert_eq!(r, Err(TxError::UnknownTx));
    assert_eq!(app_state.clients.get(&1).unwrap().available, Amount::from_raw(10000));
    assert_eq!(app_state.clients.get(&1).unwrap().locked, false);
}

#[test]
fn disputes_are_client_scoped() {
    // a dispute by one client cannot reference another client's transaction
    let mut app_state = AppState::default();
    let _ = execute_transaction(&mut app_state, Tx::new(TxType::Deposit, 1, 1, Amount::from_raw(10000)));
    let r = execute_transaction(&mut app_state, Tx::new(TxType::Dispute, 2, 1, Amount::zero()));
    assert_eq!(r, Err(TxError::UnknownTx));
    assert_eq!(app_state.clients.get(&1).unwrap().available, Amount::from_raw(10000));
    // the referencing client's account was still created on demand
    assert_eq!(app_state.clients.len(), 2);
}

#[test]
fn overflowing_deposit_is_rejected() {
    let mut app_state = AppState::default();
    let _ = execute_transaction(&mut app_state, Tx::new(TxType::Deposit, 1, 1, Amount::from_raw(i64::MAX)));
    let r = execute_transaction(&mut app_state, Tx::new(TxType::Deposit, 1, 2, Amount::from_raw(1)));
    assert_eq!(r, Err(TxError::BalanceOutOfRange));
    assert_eq!(app_state.clients.get(&1).unwrap().available, Amount::from_raw(i64::MAX));
}

#[test]
fn checked_amount_arithmetic() {
    assert_eq!(
        Amount::from_raw(1000).checked_add(Amount::from_raw(2000)),
        Some(Amount::from_raw(3000))
    );
    assert_eq!(Amount::from_raw(i64::MAX).checked_add(Amount::from_raw(1)), None);
    assert_eq!(
        Amount::from_raw(1000).checked_sub(Amount::from_raw(2000)),
        Some(Amount::from_raw(-1000))
    );
    assert_eq!(Amount::from_raw(i64::MIN).checked_sub(Amount::from_raw(1)), None);
    assert!(Amount::from_raw(5).ge(&Amount::from_raw(5)));
    assert!(!Amount::from_raw(4).ge(&Amount::from_raw(5)));
    assert_eq!(Amount::zero(), Amount::from_raw(0));
    assert_eq!(Amount::from_raw(77).raw(), 77);
}

#[test]
fn missing_amount_defaults_to_zero() {
    let tx = Tx::from_parts(TxType::Dispute, 3, 9, None);
    assert_eq!(tx.amount, Amount::zero());
    assert_eq!(tx.cid, 3);
    assert_eq!(tx.tid, 9);
    let tx = Tx::from_parts(TxType::Deposit, 3, 9, Some(Amount::from_raw(55)));
    assert_eq!(tx.amount, Amount::from_raw(55));
}

#[test]
fn basic_error_carries_its_description() {
    let e = BasicError::new("something went wrong at startup");
    assert_eq!(e.desc, "something went wrong at startup");
    assert_eq!(e.description(), "something went wrong at startup");
}

#[test]
fn redispute_of_a_disputed_tx_is_rejected() {
    let mut app_state = AppState::default();
    let _ = execute_transaction(&mut app_state, Tx::new(TxType::Deposit, 1, 1, Amount::from_raw(10000)));
    let _ = execute_transaction(&mut app_state, Tx::new(TxType::Dispute, 1, 1, Amount::zero()));
    // the transaction is under dispute, so it is no longer a dispute target
    let r = execute_transaction(&mut app_state, Tx::new(TxType::Dispute, 1, 1, Amount::zero()));
    assert_eq!(r, Err(TxError::UnknownTx));
    let client_state = app_state.clients.get(&1).unwrap();
    assert_eq!(client_state.available, Amount::from_raw(0));
    assert_eq!(client_state.held, Amount::from_raw(10000));
}

#[test]
fn resolve_makes_a_tx_disputable_again() {
    let mut app_state = AppState::default();
    let _ = execute_transaction(&mut app_state, Tx::new(TxType::Deposit, 1, 1, Amount::from_raw(10000)));
    let _ = execute_transaction(&mut app_state, Tx::new(TxType::Dispute, 1, 1, Amount::zero()));
    let _ = execute_transaction(&mut app_state, Tx::new(TxType::Resolve, 1, 1, Amount::zero()));
    let r = execute_transaction(&mut app_state, Tx::new(TxType::Dispute, 1, 1, Amount::zero()));
    assert_eq!(r, Ok(()));
    let client_state = app_state.clients.get(&1).unwrap();
    assert_eq!(client_state.available, Amount::from_raw(0));
    assert_eq!(client_state.held, Amount::from_raw(10000));
}

#[test]
fn locked_account_keeps_processing() {
    // the lock is an output flag only: transactions keep applying after it
    let mut app_state = AppState::default();
    let _ = execute_transaction(&mut app_state, Tx::new(TxType::Deposit, 1, 1, Amount::from_raw(10000)));
    let _ = execute_transaction(&mut app_state, Tx::new(TxType::Dispute, 1, 1, Amount::zero()));
    let _ = execute_transaction(&mut app_state, Tx::new(TxType::ChargeBack, 1, 1, Amount::zero()));
    let r = execute_transaction(&mut app_state, Tx::new(TxType::Deposit, 1, 2, Amount::from_raw(5000)));
    assert_eq!(r, Ok(()));
    let client_state = app_state.clients.get(&1).unwrap();
    assert_eq!(client_state.available, Amount::from_raw(5000));
    assert_eq!(client_state.locked, true);
}
