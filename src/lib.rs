//! A per-client account ledger: deposits, withdrawals and the dispute
//! life cycle (dispute, resolve, chargeback), with balances kept as exact
//! fixed-point amounts.

pub mod account;
pub mod amount;
pub mod laws;
pub mod processor;

pub use account::{ApprovedTransaction, Client, ProcessError};
pub use amount::{format_amount, parse_amount, AmountError};
pub use processor::{Processor, Row, Transaction};
