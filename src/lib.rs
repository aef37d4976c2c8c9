//! A ledger engine for client accounts: deposits, withdrawals and the
//! dispute lifecycle, applied in arrival order over fixed-point amounts of
//! ten-thousandths.

mod account;
mod amount;
mod event;
mod history;
mod laws;
mod ledger;

pub use account::Account;
pub use amount::{parse_amount, to_decimal, Decimal, UNITS_PER_WHOLE};
pub use event::{parse_event, Event, RecordError};
pub use history::{TxKind, TxRecord};
pub use laws::{
    lemma_balance_identity, lemma_locked_account_frozen, lemma_locked_account_stays_frozen,
    lemma_resolve_idempotent, lemma_step_keeps_well_formed,
};
pub use ledger::{empty_model, run, step, well_formed, Ledger, LedgerModel};
