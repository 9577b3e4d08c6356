//! A small ledger engine: it replays a sequential log of account
//! transactions (deposits, withdrawals, disputes, resolutions and
//! chargebacks) keyed by client and transaction identifiers, and yields the
//! final available/held/locked state of every client account.

mod amount;
mod errors;
mod laws;
mod ledger;
mod parse;
mod render;
mod tx;

pub use amount::{Amount, amount_in_range};
pub use errors::BasicError;
pub use laws::{
    lemma_deposits_sum, lemma_dispute_chargeback, lemma_dispute_resolve_roundtrip,
    lemma_dispute_unknown_is_noop, lemma_rejected_tx_is_noop, lemma_unknown_dispute_ref_is_noop,
    lemma_withdrawal_never_overdraws, run, sum_amounts,
};
pub use ledger::{
    apply_spec, execute_transaction, step, step_result, AppState, ClientState, ClientView, TxError,
};
pub use parse::{
    decode_row, parse_amount, parse_tx_type, spec_all_digits, spec_body_valid, spec_body_value,
    spec_digits_val, spec_dot_index, spec_is_digit, spec_lower, spec_lower_seq, spec_parse_amount,
    spec_pow10, spec_tx_type,
};
pub use render::{
    render_output, render_row, spec_amount_bytes, spec_bool_bytes, spec_client_row, spec_digits,
    spec_header_bytes, spec_output, spec_row_bytes, spec_rows, ClientOutputState,
};
pub use tx::{Tx, TxType};
