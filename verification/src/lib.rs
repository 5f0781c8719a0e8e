//! Projection of account balances under recurring cash flows, tax
//! withholding and investment growth, with machine-checked contracts.
//!
//! - [`date`]: calendar dates.
//! - [`cash`]: recurrence rules, cash flows and their payments.
//! - [`account`]: accounts, their payments and the balance these leave.
//! - [`balance`]: the balance of a day, computed once and remembered.
//! - [`portfolio`]: the growth of a balance under a weighted set of assets.
//! - [`scenario`]: what a simulation is given and what it gives back.
//! - [`sim`]: the simulation itself, day by day.
//! - [`examples`]: a ready-made account and scenario.
//!
//! Amounts are whole numbers of the smallest unit of the currency; rates,
//! weights and returns are whole numbers of millionths. Where a product
//! has to be cut back to such a number it is rounded towards 0.

pub mod account;
pub mod balance;
pub mod cash;
pub mod date;
pub mod examples;
pub mod portfolio;
pub mod scenario;
pub mod sim;
