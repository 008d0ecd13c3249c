//! A ledger engine that folds each client's ordered transaction history
//! into an account state, with a dispute / resolve / chargeback lifecycle.
//!
//! Amounts are fixed-point integers counted in ten-thousandths of a
//! currency unit (see `amount`).

pub mod amount;
pub mod client;
pub mod index;
pub mod registry;
pub mod transaction;
