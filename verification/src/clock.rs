use vstd::prelude::*;
use chrono::Datelike;

verus! {

/// Relies on chrono::Local::now and the chrono::Datelike accessors: the
/// current local calendar date as (year, month, day). The trait documents
/// the month as ranging over 1..=12 and the day of month over 1..=31;
/// nothing more can be promised of a clock reading.
#[verifier::external_body]
pub fn today_ymd() -> (d: (i32, u32, u32))
    ensures
        1 <= d.1 <= 12,
        1 <= d.2 <= 31,
{
    let now = chrono::Local::now().date_naive();
    (now.year(), now.month(), now.day())
}

} // verus!
