//! Calendar dates in the proleptic Gregorian calendar.
//!
//! A [`Date`] holds a year, month and day as plain integers, restricted to the
//! years 1 through 9999.  Every date maps to a day number (`datenum`): the
//! count of days since January 1 of year 1, which fell on a Monday.  Weekday
//! arithmetic, ordering and successor/predecessor computations are all defined
//! through that day number.

use vstd::prelude::*;
use crate::strutil::{digit_char, digit_str};

verus! {

/// Smallest year a `Date` may hold.
pub const MIN_YEAR: i32 = 1;

/// Largest year a `Date` may hold.
pub const MAX_YEAR: i32 = 9999;

/// A leap year has 366 days; February gains a 29th day.
pub open spec fn is_leap_year(y: int) -> bool {
    (y % 4 == 0 && y % 100 != 0) || y % 400 == 0
}

/// Number of days in month `m` of year `y`, for `1 <= m <= 12`.
pub open spec fn days_in_month_of(y: int, m: int) -> int {
    if m == 2 {
        if is_leap_year(y) {
            29
        } else {
            28
        }
    } else if m == 4 || m == 6 || m == 9 || m == 11 {
        30
    } else {
        31
    }
}

/// Number of days of year `y` that lie strictly before month `m`.
pub open spec fn days_before_month_of(y: int, m: int) -> int {
    let base: int = if m == 1 {
        0
    } else if m == 2 {
        31
    } else if m == 3 {
        59
    } else if m == 4 {
        90
    } else if m == 5 {
        120
    } else if m == 6 {
        151
    } else if m == 7 {
        181
    } else if m == 8 {
        212
    } else if m == 9 {
        243
    } else if m == 10 {
        273
    } else if m == 11 {
        304
    } else {
        334
    };
    let leap_extra: int = if m > 2 && is_leap_year(y) {
        1
    } else {
        0
    };
    base + leap_extra
}

/// Number of days in the years 1 through `y - 1`: 365 per year plus one for
/// each leap year among them.
pub open spec fn days_before_year_of(y: int) -> int {
    365 * (y - 1) + (y - 1) / 4 - (y - 1) / 100 + (y - 1) / 400
}

/// A valid calendar date within the supported year span.
pub open spec fn date_fields_wf(y: int, m: int, d: int) -> bool {
    &&& MIN_YEAR as int <= y <= MAX_YEAR as int
    &&& 1 <= m <= 12
    &&& 1 <= d <= days_in_month_of(y, m)
}

/// Day number of a date: days since January 1 of year 1 (which is day 0 and a
/// Monday).
pub open spec fn datenum_of(y: int, m: int, d: int) -> int {
    days_before_year_of(y) + days_before_month_of(y, m) + (d - 1)
}

/// Day number of the last supported date, December 31 of year 9999.
pub open spec fn max_datenum() -> int {
    datenum_of(MAX_YEAR as int, 12, 31)
}

/// A calendar day: year, month and day of month.
#[derive(Clone, Copy, Debug, PartialEq, Eq, Structural)]
pub struct Date {
    pub year: i32,
    pub month: u8,
    pub day: u8,
}

impl Date {
    /// The date is a real calendar date within the supported years.
    pub open spec fn wf(self) -> bool {
        date_fields_wf(self.year as int, self.month as int, self.day as int)
    }

    /// Day number of this date: days since January 1 of year 1.
    pub open spec fn datenum(self) -> int {
        datenum_of(self.year as int, self.month as int, self.day as int)
    }

    /// Weekday as days since Monday: 0 is Monday, 6 is Sunday.
    pub open spec fn weekday_index(self) -> int {
        self.datenum() % 7
    }
}

/// Whether year `y` is a leap year.
pub fn is_leap(year: i32) -> (r: bool)
    requires
        year >= 1,
    ensures
        r == is_leap_year(year as int),
{
    (year % 4 == 0 && year % 100 != 0) || year % 400 == 0
}

/// Number of days in the given month.
pub fn days_in_month(year: i32, month: u8) -> (r: u8)
    requires
        year >= 1,
        1 <= month <= 12,
    ensures
        r as int == days_in_month_of(year as int, month as int),
{
    if month == 2 {
        if is_leap(year) {
            29
        } else {
            28
        }
    } else if month == 4 || month == 6 || month == 9 || month == 11 {
        30
    } else {
        31
    }
}

impl Date {
    /// Builds the date if the fields form a real calendar date in the
    /// supported years, and returns `None` otherwise.
    pub fn from_ymd_opt(year: i32, month: u8, day: u8) -> (r: Option<Date>)
        ensures
            match r {
                Some(d) => date_fields_wf(year as int, month as int, day as int) && d.year == year
                    && d.month == month && d.day == day,
                None => !date_fields_wf(year as int, month as int, day as int),
            },
    {
        if MIN_YEAR <= year && year <= MAX_YEAR && 1 <= month && month <= 12 && 1 <= day && day
            <= days_in_month(year, month) {
            Some(Date { year, month, day })
        } else {
            None
        }
    }

    /// Day number of this date, as a machine integer.
    pub fn datenum_u64(&self) -> (r: u64)
        requires
            self.wf(),
        ensures
            r as int == self.datenum(),
    {
        let y: u64 = (self.year - 1) as u64;
        let before_year: u64 = 365 * y + y / 4 - y / 100 + y / 400;
        let m = self.month;
        let base: u64 = if m == 1 {
            0
        } else if m == 2 {
            31
        } else if m == 3 {
            59
        } else if m == 4 {
            90
        } else if m == 5 {
            120
        } else if m == 6 {
            151
        } else if m == 7 {
            181
        } else if m == 8 {
            212
        } else if m == 9 {
            243
        } else if m == 10 {
            273
        } else if m == 11 {
            304
        } else {
            334
        };
        let leap_extra: u64 = if m > 2 && is_leap(self.year) {
            1
        } else {
            0
        };
        before_year + base + leap_extra + (self.day - 1) as u64
    }

    /// Weekday as days since Monday: 0 is Monday, 6 is Sunday.
    pub fn weekday_from_monday(&self) -> (r: u8)
        requires
            self.wf(),
        ensures
            r as int == self.weekday_index(),
            r < 7,
    {
        (self.datenum_u64() % 7) as u8
    }
}

/// Dividing `y` by a positive constant steps up by one exactly at the
/// multiples of that constant.
proof fn lemma_div_step(y: int, d: int)
    requires
        y >= 1,
        d >= 1,
    ensures
        y / d - (y - 1) / d == if y % d == 0 {
            1int
        } else {
            0int
        },
{
    let q = y / d;
    let r = y % d;
    vstd::arithmetic::div_mod::lemma_fundamental_div_mod(y, d);
    if r == 0 {
        assert((q - 1) * d + (d - 1) == q * d - 1) by (nonlinear_arith);
        vstd::arithmetic::div_mod::lemma_fundamental_div_mod_converse(y - 1, d, q - 1, d - 1);
    } else {
        vstd::arithmetic::div_mod::lemma_fundamental_div_mod_converse(y - 1, d, q, r - 1);
    }
}

/// A year divisible by a multiple of 4 (100 or 400) is divisible by 4, and a
/// year divisible by 400 is divisible by 100.
proof fn lemma_divisibility_chain(y: int)
    requires
        y >= 1,
    ensures
        y % 400 == 0 ==> y % 100 == 0,
        y % 100 == 0 ==> y % 4 == 0,
{
    if y % 400 == 0 {
        vstd::arithmetic::div_mod::lemma_fundamental_div_mod(y, 400);
        assert(y == 100 * (4 * (y / 400)));
        vstd::arithmetic::div_mod::lemma_mod_multiples_basic(4 * (y / 400), 100);
    }
    if y % 100 == 0 {
        vstd::arithmetic::div_mod::lemma_fundamental_div_mod(y, 100);
        assert(y == 4 * (25 * (y / 100)));
        vstd::arithmetic::div_mod::lemma_mod_multiples_basic(25 * (y / 100), 4);
    }
}

/// Moving from year `y` to year `y + 1` adds the length of year `y`: 366 days
/// in a leap year, else 365.
pub proof fn lemma_days_before_year_succ(y: int)
    requires
        y >= 1,
    ensures
        days_before_year_of(y + 1) == days_before_year_of(y) + if is_leap_year(y) {
            366int
        } else {
            365int
        },
{
    lemma_div_step(y, 4);
    lemma_div_step(y, 100);
    lemma_div_step(y, 400);
    lemma_divisibility_chain(y);
}

/// Every valid date's day number lies between 0 and `max_datenum()`.
pub proof fn lemma_datenum_bounds(y: int, m: int, d: int)
    requires
        date_fields_wf(y, m, d),
    ensures
        0 <= datenum_of(y, m, d) <= max_datenum(),
{
    vstd::arithmetic::div_mod::lemma_div_is_ordered(0, y - 1, 4);
    vstd::arithmetic::div_mod::lemma_div_is_ordered(y - 1, MAX_YEAR as int - 1, 4);
    vstd::arithmetic::div_mod::lemma_div_is_ordered(0, y - 1, 100);
    vstd::arithmetic::div_mod::lemma_div_is_ordered(y - 1, MAX_YEAR as int - 1, 100);
    vstd::arithmetic::div_mod::lemma_div_is_ordered(0, y - 1, 400);
    vstd::arithmetic::div_mod::lemma_div_is_ordered(y - 1, MAX_YEAR as int - 1, 400);
    if y < MAX_YEAR as int {
        lemma_datenum_year_gap(y + 1, MAX_YEAR as int);
        lemma_days_before_year_succ(y);
    }
}

/// Years strictly increase day numbers: the start of year `b` is no earlier
/// than the start of year `a` plus 365 days for each year in between.
pub proof fn lemma_datenum_year_gap(a: int, b: int)
    requires
        1 <= a <= b,
    ensures
        days_before_year_of(b) >= days_before_year_of(a) + 365 * (b - a),
    decreases b - a,
{
    if a < b {
        lemma_datenum_year_gap(a, b - 1);
        lemma_days_before_year_succ(b - 1);
    }
}

/// The calendar successor of a date: next day of the month, or the first day
/// of the next month or year.
pub open spec fn next_date_of(d: Date) -> Date {
    if (d.day as int) < days_in_month_of(d.year as int, d.month as int) {
        Date { year: d.year, month: d.month, day: (d.day + 1) as u8 }
    } else if d.month < 12 {
        Date { year: d.year, month: (d.month + 1) as u8, day: 1 }
    } else {
        Date { year: (d.year + 1) as i32, month: 1, day: 1 }
    }
}

/// The calendar predecessor of a date: previous day of the month, or the last
/// day of the previous month or year.
pub open spec fn prev_date_of(d: Date) -> Date {
    if d.day > 1 {
        Date { year: d.year, month: d.month, day: (d.day - 1) as u8 }
    } else if d.month > 1 {
        Date {
            year: d.year,
            month: (d.month - 1) as u8,
            day: days_in_month_of(d.year as int, (d.month - 1) as int) as u8,
        }
    } else {
        Date { year: (d.year - 1) as i32, month: 12, day: 31 }
    }
}

/// The successor of a valid date below the maximum is valid and its day number
/// is one greater.
pub proof fn lemma_next_date_of(d: Date)
    requires
        d.wf(),
        d.datenum() < max_datenum(),
    ensures
        next_date_of(d).wf(),
        next_date_of(d).datenum() == d.datenum() + 1,
{
    if (d.day as int) >= days_in_month_of(d.year as int, d.month as int) && d.month >= 12 {
        lemma_days_before_year_succ(d.year as int);
        if d.year == MAX_YEAR {
            assert(d.datenum() == max_datenum());
        }
    }
}

/// The predecessor of a valid date above day number 0 is valid and its day
/// number is one less.
pub proof fn lemma_prev_date_of(d: Date)
    requires
        d.wf(),
        d.datenum() > 0,
    ensures
        prev_date_of(d).wf(),
        prev_date_of(d).datenum() == d.datenum() - 1,
{
    if d.day == 1 && d.month == 1 {
        if d.year == MIN_YEAR {
            assert(d.datenum() == 0);
        } else {
            lemma_days_before_year_succ(d.year as int - 1);
        }
    }
}

impl Date {
    /// The next calendar day.
    pub fn next_day(&self) -> (r: Date)
        requires
            self.wf(),
            self.datenum() < max_datenum(),
        ensures
            r == next_date_of(*self),
            r.wf(),
            r.datenum() == self.datenum() + 1,
    {
        proof {
            lemma_next_date_of(*self);
        }
        if self.day < days_in_month(self.year, self.month) {
            Date { year: self.year, month: self.month, day: self.day + 1 }
        } else if self.month < 12 {
            Date { year: self.year, month: self.month + 1, day: 1 }
        } else {
            Date { year: self.year + 1, month: 1, day: 1 }
        }
    }

    /// The previous calendar day.
    pub fn prev_day(&self) -> (r: Date)
        requires
            self.wf(),
            self.datenum() > 0,
        ensures
            r == prev_date_of(*self),
            r.wf(),
            r.datenum() == self.datenum() - 1,
    {
        proof {
            lemma_prev_date_of(*self);
        }
        if self.day > 1 {
            Date { year: self.year, month: self.month, day: self.day - 1 }
        } else if self.month > 1 {
            Date { year: self.year, month: self.month - 1, day: days_in_month(self.year, self.month - 1) }
        } else {
            Date { year: self.year - 1, month: 12, day: 31 }
        }
    }
}

impl Date {
    /// Whether this date is on or before `other`, by day number.
    pub fn is_on_or_before(&self, other: &Date) -> (r: bool)
        requires
            self.wf(),
            other.wf(),
        ensures
            r == (self.datenum() <= other.datenum()),
    {
        self.datenum_u64() <= other.datenum_u64()
    }

    /// The date `n` days later.
    pub fn add_days(&self, n: u64) -> (r: Date)
        requires
            self.wf(),
            self.datenum() + n <= max_datenum(),
        ensures
            r.wf(),
            r.datenum() == self.datenum() + n,
    {
        let mut cur: Date = *self;
        let mut i: u64 = 0;
        while i < n
            invariant
                i <= n,
                cur.wf(),
                cur.datenum() == self.datenum() + i,
                self.datenum() + n <= max_datenum(),
            decreases n - i,
        {
            cur = cur.next_day();
            i = i + 1;
        }
        cur
    }

    /// The date `n` days earlier.
    pub fn sub_days(&self, n: u64) -> (r: Date)
        requires
            self.wf(),
            n <= self.datenum(),
        ensures
            r.wf(),
            r.datenum() == self.datenum() - n,
    {
        let mut cur: Date = *self;
        let mut i: u64 = 0;
        while i < n
            invariant
                i <= n,
                cur.wf(),
                cur.datenum() == self.datenum() - i,
                n <= self.datenum(),
            decreases n - i,
        {
            cur = cur.prev_day();
            i = i + 1;
        }
        cur
    }
}

/// Day number of January 1, 1970, the Unix epoch.
pub open spec fn epoch_datenum() -> int {
    datenum_of(1970, 1, 1)
}

/// A Unix timestamp in seconds falls on the given calendar day exactly when it
/// lies in that day's 86400-second window.
pub open spec fn on_day(ts: int, d: Date) -> bool {
    let day_start = (d.datenum() - epoch_datenum()) * 86400;
    day_start <= ts < day_start + 86400
}

/// Whether the Unix timestamp `ts` (in seconds) falls on calendar day `d`.
pub fn same_day(ts: i64, d: &Date) -> (r: bool)
    requires
        d.wf(),
    ensures
        r == on_day(ts as int, *d),
{
    proof {
        lemma_datenum_bounds(d.year as int, d.month as int, d.day as int);
        assert(epoch_datenum() == 719162);
        assert(max_datenum() == 3652058);
    }
    let dn: i64 = d.datenum_u64() as i64;
    let day_start: i64 = (dn - 719162) * 86400;
    day_start <= ts && ts < day_start + 86400
}

/// Decimal digits of `n` zero-padded to width two.
pub open spec fn two_digit_seq(n: int) -> Seq<char> {
    seq![digit_char(n / 10), digit_char(n % 10)]
}

/// Decimal digits of `n` zero-padded to width four.
pub open spec fn four_digit_seq(n: int) -> Seq<char> {
    seq![digit_char(n / 1000), digit_char((n / 100) % 10), digit_char((n / 10) % 10), digit_char(n % 10)]
}

/// A date in ISO `YYYY-MM-DD` form.
pub open spec fn iso_date_seq(d: Date) -> Seq<char> {
    four_digit_seq(d.year as int) + seq!['-'] + two_digit_seq(d.month as int) + seq!['-']
        + two_digit_seq(d.day as int)
}

/// Appends `n` to `out` as exactly two decimal digits.
fn push_two_digits(out: &mut String, n: u64)
    requires
        n < 100,
    ensures
        final(out)@ == old(out)@ + two_digit_seq(n as int),
{
    out.append(digit_str(n / 10));
    out.append(digit_str(n % 10));
}

/// Appends `n` to `out` as exactly four decimal digits.
fn push_four_digits(out: &mut String, n: u64)
    requires
        n < 10000,
    ensures
        final(out)@ == old(out)@ + four_digit_seq(n as int),
{
    out.append(digit_str(n / 1000));
    out.append(digit_str((n / 100) % 10));
    out.append(digit_str((n / 10) % 10));
    out.append(digit_str(n % 10));
}

/// Formats a date as `YYYY-MM-DD`.
pub fn format_iso(d: &Date) -> (r: String)
    requires
        d.wf(),
    ensures
        r@ == iso_date_seq(*d),
{
    let mut out = String::new();
    push_four_digits(&mut out, self_year_u64(d));
    push_dash(&mut out);
    push_two_digits(&mut out, d.month as u64);
    push_dash(&mut out);
    push_two_digits(&mut out, d.day as u64);
    proof {
        assert(out@ =~= iso_date_seq(*d));
    }
    out
}

/// The year of a valid date as an unsigned machine integer.
fn self_year_u64(d: &Date) -> (r: u64)
    requires
        d.wf(),
    ensures
        r == d.year as int,
{
    d.year as u64
}

/// Appends a single hyphen.
fn push_dash(out: &mut String)
    ensures
        final(out)@ == old(out)@ + seq!['-'],
{
    proof {
        reveal_strlit("-");
        assert("-"@ =~= seq!['-']);
    }
    out.append("-");
}

} // verus!
