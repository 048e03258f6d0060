//! Civil date and time to Unix-epoch nanoseconds.
//!
//! The paginated log format carries page base times as civil fields
//! (year, month, day, hour, minute, second, millisecond). Resolving those
//! to nanoseconds since the Unix epoch is calendar arithmetic delegated to
//! the chrono crate behind one trusted wrapper; everything around it —
//! parsing the fields out of the page text, spacing samples from the base
//! time — is verified.

use vstd::prelude::*;

verus! {

/// The number of days of `month` in `year`, by the Gregorian rule.
pub open spec fn days_in_month(year: i32, month: u32) -> u32 {
    if month == 1 || month == 3 || month == 5 || month == 7 || month == 8 || month == 10 || month
        == 12 {
        31
    } else if month == 4 || month == 6 || month == 9 || month == 11 {
        30
    } else if month == 2 {
        if (year as int % 4 == 0 && year as int % 100 != 0) || year as int % 400 == 0 {
            29
        } else {
            28
        }
    } else {
        0
    }
}

pub uninterp spec fn epoch_ns_opt_of(
    year: i32,
    month: u32,
    day: u32,
    hour: u32,
    minute: u32,
    second: u32,
    milli: u32,
) -> Option<i64>;

/// Relies on chrono: `NaiveDate::from_ymd_opt`, `NaiveDate::and_hms_milli_opt`,
/// `NaiveDateTime::and_utc` and `DateTime::timestamp_nanos_opt` together
/// resolve a civil date and time to nanoseconds since the Unix epoch, or
/// to `None` when the fields are no valid date and time or the instant
/// falls outside the nanosecond range (chrono documents roughly the years
/// 1677 through 2262). The result depends on the arguments alone, so it
/// carries the name `epoch_ns_opt_of`; chrono's documentation plainly
/// promises success for every valid Gregorian date and sub-second time in
/// the years 1970 through 2200.
#[verifier::external_body]
pub fn civil_to_epoch_ns(
    year: i32,
    month: u32,
    day: u32,
    hour: u32,
    minute: u32,
    second: u32,
    milli: u32,
) -> (r: Option<i64>)
    ensures
        r == epoch_ns_opt_of(year, month, day, hour, minute, second, milli),
        (1970 <= year <= 2200 && 1 <= month <= 12 && 1 <= day && day <= days_in_month(year, month)
            && hour < 24 && minute < 60 && second < 60 && milli < 1000) ==> r is Some,
{
    match chrono::NaiveDate::from_ymd_opt(year, month, day) {
        None => None,
        Some(d) => match d.and_hms_milli_opt(hour, minute, second, milli) {
            None => None,
            Some(dt) => dt.and_utc().timestamp_nanos_opt(),
        },
    }
}

} // verus!
