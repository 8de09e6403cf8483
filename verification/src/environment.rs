//! What the library reads from the NEAR runtime: the time of the block and
//! the account that called.

use vstd::prelude::*;
use near_sdk::PromiseError;
use crate::calendar::{current_date, days_from_civil, is_civil_date, SECONDS_PER_DAY};

verus! {

/// Nanoseconds in one second.
pub const NANOSECONDS_PER_SECOND: u64 = 1_000_000_000;

/// `near_sdk::PromiseError`, the ways in which a promise can fail. Its value
/// is opaque here: the library only tells success from failure.
#[verifier::external_type_specification]
#[verifier::external_body]
pub struct ExPromiseError(PromiseError);

/// `near_sdk::env::block_timestamp`: the time of the current block in
/// nanoseconds since 1970-01-01 00:00:00 UTC. Nothing is claimed of the
/// value.
pub assume_specification[ near_sdk::env::block_timestamp ]() -> (nanoseconds: u64);

/// `near_sdk::env::predecessor_account_id`: the account that called the
/// contract, as text. Nothing is claimed of the value.
#[verifier::external_body]
pub(crate) fn predecessor_account() -> (account: String) {
    near_sdk::env::predecessor_account_id().to_string()
}

/// The civil date of the current block.
///
/// Whatever time the runtime reports, the result is a day of the calendar
/// from 1970 on: the day on which that time falls.
pub fn get_current_date() -> (date: (i32, u32, u32))
    ensures
        1970 <= date.0,
        is_civil_date(date.0 as int, date.1 as int, date.2 as int),
        days_from_civil(date.0 as int, date.1 as int, date.2 as int) <= u64::MAX
            / NANOSECONDS_PER_SECOND / SECONDS_PER_DAY,
{
    let seconds = near_sdk::env::block_timestamp() / NANOSECONDS_PER_SECOND;
    current_date(seconds)
}

} // verus!
