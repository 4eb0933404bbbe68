//! Accounting core of a collateralized lending protocol: a collateral ledger
//! that keeps each borrower's balance and spendable amount, a liquidation bid
//! book with two secondary indices, and the emission-rate curve.

pub mod amount;
pub mod store;
pub mod custody;
pub mod liquidation;
pub mod distribution_model;
pub mod interest_model;
