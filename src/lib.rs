//! Replays deposits, withdrawals and the dispute workflow into per-client
//! account balances.
//!
//! `ledger` holds the state machine with its exact specification, `bank` a
//! handle that several workers share, and `amount` the fixed-point money
//! value with its decimal text form.

pub mod account;
pub mod amount;
pub mod bank;
pub mod laws;
pub mod ledger;
pub mod transaction;
