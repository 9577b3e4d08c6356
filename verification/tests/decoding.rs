//! The field decoders: transaction-type names and exact decimal amounts.

use ledger::{parse_amount, parse_tx_type, Amount, TxType};

#[test]
fn tx_type_names_lower_case() {
    assert_eq!(parse_tx_type(b"deposit"), Some(TxType::Deposit));
    assert_eq!(parse_tx_type(b"withdrawal"), Some(TxType::Withdrawal));
    assert_eq!(parse_tx_type(b"dispute"), Some(TxType::Dispute));
    assert_eq!(parse_tx_type(b"resolve"), Some(TxType::Resolve));
    assert_eq!(parse_tx_type(b"chargeback"), Some(TxType::ChargeBack));
}

#[test]
fn tx_type_names_are_case_insensitive() {
    assert_eq!(parse_tx_type(b"Deposit"), Some(TxType::Deposit));
    assert_eq!(parse_tx_type(b"WITHDRAWAL"), Some(TxType::Withdrawal));
    assert_eq!(parse_tx_type(b"ChargeBack"), Some(TxType::ChargeBack));
}

#[test]
fn unknown_tx_type_names_are_rejected() {
    assert_eq!(parse_tx_type(b""), None);
    assert_eq!(parse_tx_type(b"deposits"), None);
    assert_eq!(parse_tx_type(b"transfer"), None);
    assert_eq!(parse_tx_type(b"deposi"), None);
}

#[test]
fn amounts_decode_exactly() {
    assert_eq!(parse_amount(b"1.0"), Some(Amount::from_raw(10000)));
    assert_eq!(parse_amount(b"0.5"), Some(Amount::from_raw(5000)));
    assert_eq!(parse_amount(b"0.0001"), Some(Amount::from_raw(1)));
    assert_eq!(parse_amount(b"0.1"), Some(Amount::from_raw(1000)));
    assert_eq!(parse_amount(b"12"), Some(Amount::from_raw(120000)));
    assert_eq!(parse_amount(b"2.5001"), Some(Amount::from_raw(25001)));
    assert_eq!(parse_amount(b"0007.25"), Some(Amount::from_raw(72500)));
}

#[test]
fn negative_amounts_decode() {
    assert_eq!(parse_amount(b"-1.0"), Some(Amount::from_raw(-10000)));
    assert_eq!(parse_amount(b"-0.0001"), Some(Amount::from_raw(-1)));
}

#[test]
fn malformed_amounts_are_rejected() {
    assert_eq!(parse_amount(b""), None);
    assert_eq!(parse_amount(b"-"), None);
    assert_eq!(parse_amount(b"."), None);
    assert_eq!(parse_amount(b"1."), None);
    assert_eq!(parse_amount(b".5"), None);
    assert_eq!(parse_amount(b"1.00005"), None);
    assert_eq!(parse_amount(b"1.2.3"), None);
    assert_eq!(parse_amount(b"12x"), None);
    assert_eq!(parse_amount(b"x12"), None);
    assert_eq!(parse_amount(b"1 0"), None);
    assert_eq!(parse_amount(b"+5"), None);
}

#[test]
fn out_of_range_amounts_are_rejected() {
    // the largest representable raw value is 922337203685477.5807
    assert_eq!(parse_amount(b"922337203685477.5807"), Some(Amount::from_raw(i64::MAX)));
    assert_eq!(parse_amount(b"922337203685477.5808"), None);
    assert_eq!(parse_amount(b"-922337203685477.5808"), Some(Amount::from_raw(i64::MIN)));
    assert_eq!(parse_amount(b"-922337203685477.5809"), None);
    assert_eq!(parse_amount(b"9999999999999999999"), None);
    assert_eq!(parse_amount(b"0000000000000000001"), None);
}

#[test]
fn rows_decode_or_are_flagged_malformed() {
    let tx = ledger::decode_row(b"Deposit", 4, 11, Some(b"2.5")).unwrap();
    assert_eq!(tx.tx_type, TxType::Deposit);
    assert_eq!(tx.cid, 4);
    assert_eq!(tx.tid, 11);
    assert_eq!(tx.amount, Amount::from_raw(25000));

    let tx = ledger::decode_row(b"dispute", 4, 11, None).unwrap();
    assert_eq!(tx.tx_type, TxType::Dispute);
    assert_eq!(tx.amount, Amount::zero());

    assert!(ledger::decode_row(b"transfer", 4, 11, Some(b"2.5")).is_none());
    assert!(ledger::decode_row(b"deposit", 4, 11, Some(b"2.5x")).is_none());
}
