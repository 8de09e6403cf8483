//! A token vesting schedule: a ledger of beneficiaries, each with a fixed
//! entitlement released in equal periodic installments, the scheduler that
//! decides which installments are due, and the rule by which a payout
//! becomes part of the ledger only once its transfer is confirmed.

pub mod calendar;
pub mod decimal;
pub mod date_text;
pub mod investment;
pub mod schedule;
pub mod environment;
pub mod contract;
