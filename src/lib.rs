//! A ledger of client accounts driven by a stream of deposits, withdrawals
//! and the dispute workflow (dispute, resolve, chargeback).
//!
//! Money is held in fixed point: every amount and balance is a signed count
//! of ten-thousandths of the currency unit, so that balances add up exactly.
pub mod amount;
pub mod balance;
pub mod history;
pub mod laws;
pub mod transaction_manager;
pub mod transactions;
