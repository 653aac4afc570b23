//! The ambient clock, read once per top-level operation and passed into the
//! calendar, parser, renderer and cache as plain values.

use vstd::prelude::*;
use crate::dates::days_in_month_of;

verus! {

/// Relies on `chrono::Utc::now` and `Datelike`: the current UTC date's year,
/// month and day form a real calendar date, with the month between 1 and 12
/// and the day between 1 and the month's length.
#[verifier::external_body]
pub fn today_utc() -> (r: (i32, u8, u8))
    ensures
        1 <= r.1 <= 12,
        1 <= r.2 <= 31,
        r.2 as int <= days_in_month_of(r.0 as int, r.1 as int),
{
    let now = chrono::Utc::now().date_naive();
    (
        chrono::Datelike::year(&now),
        chrono::Datelike::month(&now) as u8,
        chrono::Datelike::day(&now) as u8,
    )
}

/// Relies on `chrono::Utc::now`: the current Unix time in whole seconds.
/// Nothing is assumed of the value; callers must cope with any clock.
#[verifier::external_body]
pub fn now_unix() -> i64 {
    chrono::Utc::now().timestamp()
}

} // verus!
