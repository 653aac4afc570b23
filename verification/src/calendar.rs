//! Week- and month-aligned date ranges.
//!
//! A month range pads the target month back to the preceding Monday and
//! forward to the Sunday at or after its last day.  A week range pads a single
//! date back to its week's Monday and forward by `7 - days-since-Sunday` days,
//! so a date that is itself a Sunday yields the Sunday seven days later.

use vstd::prelude::*;
use crate::dates::{
    datenum_of, days_in_month_of, lemma_datenum_bounds, max_datenum, Date,
    MAX_YEAR, MIN_YEAR,
};
use crate::models::DateRange;

verus! {

/// Why a range could not be computed.
#[derive(Clone, Copy, Debug, PartialEq, Eq, Structural)]
pub enum RangeError {
    /// The month number lies outside 1 through 12.
    InvalidMonth,
    /// The month's first or last day falls outside the supported years.
    InvalidDate,
    /// Padding the range ran past the last supported date.
    DateOverflow,
}

impl RangeError {
    /// A human-readable description of the error.
    pub fn message(&self) -> (r: String)
        ensures
            match self {
                RangeError::InvalidMonth => r@ == "Invalid month"@,
                RangeError::InvalidDate => r@ == "Invalid date"@,
                RangeError::DateOverflow => r@ == "Failed to calculate Sunday date"@,
            },
    {
        match self {
            RangeError::InvalidMonth => String::from_str("Invalid month"),
            RangeError::InvalidDate => String::from_str("Invalid date"),
            RangeError::DateOverflow => String::from_str("Failed to calculate Sunday date"),
        }
    }
}

/// Days from Sunday: 0 for Sunday, 1 for Monday, ..., 6 for Saturday.
pub open spec fn days_from_sunday_of(d: Date) -> int {
    (d.weekday_index() + 1) % 7
}

/// The calendar-grid range calculator.
pub struct Calendar;

impl Calendar {
    /// The Monday-to-Sunday-aligned range that covers the given month: from
    /// the Monday at or before the month's first day through the Sunday
    /// strictly after its last day minus-a-week rule (`7 - days-from-Sunday`
    /// days past the last day).
    ///
    /// Returns `Err(InvalidMonth)` exactly when `month` is outside 1 through
    /// 12, and `Err(InvalidDate)` exactly when the month's first day or the
    /// following month's first day falls outside the supported years.  For
    /// every other input the range is returned: its `from` is a Monday, its
    /// `to` is a Sunday, and every day of the month lies between them.
    pub fn range_days_for_month(year: i32, month: u32) -> (r: Result<DateRange, RangeError>)
        ensures
            month < 1 || month > 12 ==> r == Err::<DateRange, RangeError>(RangeError::InvalidMonth),
            1 <= month <= 12 && !(MIN_YEAR <= year <= MAX_YEAR && !(month == 12 && year
                == MAX_YEAR)) ==> r == Err::<DateRange, RangeError>(RangeError::InvalidDate),
            1 <= month <= 12 && MIN_YEAR <= year <= MAX_YEAR && !(month == 12 && year == MAX_YEAR)
                ==> matches!(r, Ok(_)),
            match r {
                Ok(range) => {
                    let first = datenum_of(year as int, month as int, 1);
                    let last = datenum_of(
                        year as int,
                        month as int,
                        days_in_month_of(year as int, month as int),
                    );
                    &&& range.wf()
                    &&& range.from.weekday_index() == 0
                    &&& range.to.weekday_index() == 6
                    &&& range.from.datenum() == first - (first % 7)
                    &&& range.to.datenum() == last + 7 - ((last % 7) + 1) % 7
                    &&& range.from.datenum() <= first
                    &&& last < range.to.datenum()
                },
                Err(_) => true,
            },
    {
        if month < 1 || month > 12 {
            return Err(RangeError::InvalidMonth);
        }
        let first_day = match Date::from_ymd_opt(year, month as u8, 1) {
            Some(d) => d,
            None => {
                return Err(RangeError::InvalidDate);
            },
        };
        let last_day = if month == 12 {
            let next_jan = match Date::from_ymd_opt(year + 1, 1, 1) {
                Some(d) => d,
                None => {
                    return Err(RangeError::InvalidDate);
                },
            };
            proof {
                crate::dates::lemma_datenum_year_gap(1, year as int + 1);
            }
            next_jan.prev_day()
        } else {
            let next_first = match Date::from_ymd_opt(year, month as u8 + 1, 1) {
                Some(d) => d,
                None => {
                    return Err(RangeError::InvalidDate);
                },
            };
            next_first.prev_day()
        };
        let monday = sub_to_monday(&first_day);
        proof {
            lemma_datenum_bounds(year as int, 12, 31);
            if month < 12 {
                assert(last_day.datenum() + 7 <= datenum_of(year as int, 12, 31));
            } else {
                crate::dates::lemma_days_before_year_succ(year as int);
                lemma_datenum_bounds(year as int + 1, 12, 31);
            }
        }
        let sunday = add_past_sunday(&last_day);
        proof {
            assert(monday.datenum() <= first_day.datenum());
            assert(first_day.datenum() <= last_day.datenum());
        }
        Ok(DateRange { from: monday, to: sunday })
    }

    /// The week range around `date`: from the Monday of `date`'s week through
    /// `7 - days-from-Sunday` days after `date`.  For a Monday through
    /// Saturday this is that week's Monday-to-Sunday span; for a Sunday it
    /// ends on the Sunday seven days later.
    ///
    /// Returns `Err(DateOverflow)` exactly when the forward padding would run
    /// past the last supported date.
    pub fn range_days_for_week(date: &Date) -> (r: Result<DateRange, RangeError>)
        requires
            date.wf(),
        ensures
            if date.datenum() + 7 - days_from_sunday_of(*date) <= max_datenum() {
                match r {
                    Ok(range) => {
                        &&& range.wf()
                        &&& range.from.weekday_index() == 0
                        &&& range.from.datenum() == date.datenum() - date.weekday_index()
                        &&& range.to.datenum() == date.datenum() + 7 - days_from_sunday_of(*date)
                        &&& range.to.weekday_index() == 6
                        &&& (date.weekday_index() == 6 ==> range.to.datenum() == date.datenum()
                            + 7)
                        &&& (date.weekday_index() < 6 ==> range.to.datenum() == range.from.datenum()
                            + 6)
                    },
                    Err(_) => false,
                }
            } else {
                r == Err::<DateRange, RangeError>(RangeError::DateOverflow)
            },
    {
        let monday = sub_to_monday(date);
        let dfs = days_from_sunday(date);
        proof {
            lemma_datenum_bounds(date.year as int, date.month as int, date.day as int);
        }
        if date.datenum_u64() + (7 - dfs as u64) > 3652058 {
            proof {
                assert(max_datenum() == 3652058);
            }
            return Err(RangeError::DateOverflow);
        }
        let sunday = date.add_days(7 - dfs as u64);
        proof {
            lemma_past_sunday_weekday(date.datenum());
        }
        Ok(DateRange { from: monday, to: sunday })
    }
}

/// Stepping a day number forward by `7 - days-from-Sunday` always lands on a
/// Sunday (weekday index 6).
proof fn lemma_past_sunday_weekday(dn: int)
    requires
        dn >= 0,
    ensures
        (dn + 7 - ((dn % 7) + 1) % 7) % 7 == 6,
{
    let w = dn % 7;
    if w == 6 {
        vstd::arithmetic::div_mod::lemma_add_mod_noop(dn, 7, 7);
    } else {
        vstd::arithmetic::div_mod::lemma_small_mod((w + 1) as nat, 7);
        vstd::arithmetic::div_mod::lemma_add_mod_noop(dn, 6 - w, 7);
        vstd::arithmetic::div_mod::lemma_small_mod((6 - w) as nat, 7);
        vstd::arithmetic::div_mod::lemma_small_mod(6, 7);
    }
}

/// Days from Sunday of a date: 0 for Sunday through 6 for Saturday.
fn days_from_sunday(d: &Date) -> (r: u8)
    requires
        d.wf(),
    ensures
        r as int == days_from_sunday_of(*d),
        r < 7,
{
    (d.weekday_from_monday() + 1) % 7
}

/// The Monday at or before the given date.
fn sub_to_monday(d: &Date) -> (r: Date)
    requires
        d.wf(),
    ensures
        r.wf(),
        r.datenum() == d.datenum() - d.weekday_index(),
        r.weekday_index() == 0,
{
    let wd = d.weekday_from_monday();
    proof {
        lemma_datenum_bounds(d.year as int, d.month as int, d.day as int);
        if d.datenum() < 7 {
            vstd::arithmetic::div_mod::lemma_small_mod(d.datenum() as nat, 7);
        }
        vstd::arithmetic::div_mod::lemma_sub_mod_noop(d.datenum(), d.datenum() % 7, 7);
        vstd::arithmetic::div_mod::lemma_mod_twice(d.datenum(), 7);
        vstd::arithmetic::div_mod::lemma_small_mod(0, 7);
    }
    d.sub_days(wd as u64)
}

/// The Sunday strictly after the given date by the `7 - days-from-Sunday`
/// rule; the caller must have room below the last supported date.
fn add_past_sunday(d: &Date) -> (r: Date)
    requires
        d.wf(),
        d.datenum() + 7 - days_from_sunday_of(*d) <= max_datenum(),
    ensures
        r.wf(),
        r.datenum() == d.datenum() + 7 - days_from_sunday_of(*d),
        r.weekday_index() == 6,
        d.datenum() < r.datenum(),
{
    let dfs = days_from_sunday(d);
    proof {
        lemma_datenum_bounds(d.year as int, d.month as int, d.day as int);
        lemma_past_sunday_weekday(d.datenum());
    }
    d.add_days(7 - dfs as u64)
}

} // verus!
