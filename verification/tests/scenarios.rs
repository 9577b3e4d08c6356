//! The end-to-end scenarios: a short transaction chain, then the rendered
//! output, header line included, checked byte for byte.

use ledger::{execute_transaction, render_output, Amount, AppState, Tx, TxType};

fn output_of(txs: &[Tx]) -> String {
    let mut app_state = AppState::default();
    for tx in txs {
        let _ = execute_transaction(&mut app_state, *tx);
    }
    String::from_utf8(render_output(&app_state)).unwrap()
}

const HEADER: &str = "client,available,held,total,locked\n";

#[test]
fn single_deposit_output() {
    let out = output_of(&[Tx::new(TxType::Deposit, 1, 1, Amount::from_raw(10000))]);
    assert_eq!(out, format!("{}1,1.0000,0.0000,1.0000,false\n", HEADER));
}

#[test]
fn deposit_then_withdrawal_output() {
    let out = output_of(&[
        Tx::new(TxType::Deposit, 1, 1, Amount::from_raw(10000)),
        Tx::new(TxType::Withdrawal, 1, 2, Amount::from_raw(5000)),
    ]);
    assert_eq!(out, format!("{}1,0.5000,0.0000,0.5000,false\n", HEADER));
}

#[test]
fn dispute_output() {
    let out = output_of(&[
        Tx::new(TxType::Deposit, 1, 1, Amount::from_raw(10000)),
        Tx::new(TxType::Dispute, 1, 1, Amount::zero()),
    ]);
    assert_eq!(out, format!("{}1,0.0000,1.0000,1.0000,false\n", HEADER));
}

#[test]
fn dispute_resolve_output() {
    let out = output_of(&[
        Tx::new(TxType::Deposit, 1, 1, Amount::from_raw(10000)),
        Tx::new(TxType::Dispute, 1, 1, Amount::zero()),
        Tx::new(TxType::Resolve, 1, 1, Amount::zero()),
    ]);
    assert_eq!(out, format!("{}1,1.0000,0.0000,1.0000,false\n", HEADER));
}

#[test]
fn dispute_chargeback_output() {
    let out = output_of(&[
        Tx::new(TxType::Deposit, 1, 1, Amount::from_raw(10000)),
        Tx::new(TxType::Dispute, 1, 1, Amount::zero()),
        Tx::new(TxType::ChargeBack, 1, 1, Amount::zero()),
    ]);
    assert_eq!(out, format!("{}1,0.0000,0.0000,0.0000,true\n", HEADER));
}

#[test]
fn dispute_unknown_tx_output() {
    let out = output_of(&[
        Tx::new(TxType::Deposit, 1, 1, Amount::from_raw(10000)),
        Tx::new(TxType::Dispute, 1, 99, Amount::zero()),
    ]);
    assert_eq!(out, format!("{}1,1.0000,0.0000,1.0000,false\n", HEADER));
}

#[test]
fn rows_come_out_sorted_by_client() {
    let out = output_of(&[
        Tx::new(TxType::Deposit, 7, 1, Amount::from_raw(10000)),
        Tx::new(TxType::Deposit, 2, 2, Amount::from_raw(20000)),
        Tx::new(TxType::Deposit, 5, 3, Amount::from_raw(5000)),
    ]);
    assert_eq!(
        out,
        format!(
            "{}2,2.0000,0.0000,2.0000,false\n5,0.5000,0.0000,0.5000,false\n7,1.0000,0.0000,1.0000,false\n",
            HEADER
        )
    );
}

#[test]
fn negative_available_renders_with_sign() {
    // a disputed withdrawal drives the available balance below zero on purpose
    let out = output_of(&[
        Tx::new(TxType::Deposit, 1, 1, Amount::from_raw(10000)),
        Tx::new(TxType::Withdrawal, 1, 2, Amount::from_raw(10000)),
        Tx::new(TxType::Dispute, 1, 2, Amount::zero()),
    ]);
    assert_eq!(out, format!("{}1,-1.0000,1.0000,0.0000,false\n", HEADER));
}

#[test]
fn total_column_is_available_plus_held_in_every_row() {
    let out = output_of(&[
        Tx::new(TxType::Deposit, 1, 1, Amount::from_raw(12345)),
        Tx::new(TxType::Deposit, 2, 2, Amount::from_raw(99999)),
        Tx::new(TxType::Dispute, 2, 2, Amount::zero()),
    ]);
    assert_eq!(
        out,
        format!("{}1,1.2345,0.0000,1.2345,false\n2,0.0000,9.9999,9.9999,false\n", HEADER)
    );
}
