//! Pure filters over lists of days about to be logged: which fall on a
//! weekend, and which carry a public holiday.

use vstd::prelude::*;
use crate::dates::{format_iso, iso_date_seq, Date};
use crate::holidays::NagerHoliday;
use crate::models::weekday_dates;

verus! {

/// The days of `s` that fall on a weekend, in order.
pub open spec fn weekend_dates(s: Seq<Date>) -> Seq<Date>
    decreases s.len(),
{
    if s.len() == 0 {
        Seq::empty()
    } else if s.last().weekday_index() >= 5 {
        weekend_dates(s.drop_last()).push(s.last())
    } else {
        weekend_dates(s.drop_last())
    }
}

/// The days of `dates` that fall on a Saturday or Sunday, in order.
pub fn weekend_days(dates: &Vec<Date>) -> (r: Vec<Date>)
    requires
        forall|i: int| 0 <= i < dates@.len() ==> (#[trigger] dates@[i]).wf(),
    ensures
        r@ == weekend_dates(dates@),
{
    let mut out: Vec<Date> = Vec::new();
    let n = dates.len();
    let mut i: usize = 0;
    while i < n
        invariant
            n == dates@.len(),
            i <= n,
            forall|j: int| 0 <= j < n ==> (#[trigger] dates@[j]).wf(),
            out@ == weekend_dates(dates@.take(i as int)),
        decreases n - i,
    {
        proof {
            assert(dates@.take(i + 1).drop_last() =~= dates@.take(i as int));
            assert(dates@.take(i + 1).last() == dates@[i as int]);
        }
        if dates[i].weekday_from_monday() >= 5 {
            out.push(dates[i]);
        }
        i = i + 1;
    }
    proof {
        assert(dates@.take(n as int) =~= dates@);
    }
    out
}

/// The days of `dates` that fall on a weekday, in order: what is left after
/// skipping the weekend.
pub fn remove_weekend_days(dates: &Vec<Date>) -> (r: Vec<Date>)
    requires
        forall|i: int| 0 <= i < dates@.len() ==> (#[trigger] dates@[i]).wf(),
    ensures
        r@ == weekday_dates(dates@),
{
    let mut out: Vec<Date> = Vec::new();
    let n = dates.len();
    let mut i: usize = 0;
    while i < n
        invariant
            n == dates@.len(),
            i <= n,
            forall|j: int| 0 <= j < n ==> (#[trigger] dates@[j]).wf(),
            out@ == weekday_dates(dates@.take(i as int)),
        decreases n - i,
    {
        proof {
            assert(dates@.take(i + 1).drop_last() =~= dates@.take(i as int));
            assert(dates@.take(i + 1).last() == dates@[i as int]);
        }
        if dates[i].weekday_from_monday() < 5 {
            out.push(dates[i]);
        }
        i = i + 1;
    }
    proof {
        assert(dates@.take(n as int) =~= dates@);
    }
    out
}

/// The first holiday record whose date equals `key`, scanning in order.
pub open spec fn find_holiday(hs: Seq<NagerHoliday>, key: Seq<char>) -> Option<NagerHoliday>
    decreases hs.len(),
{
    if hs.len() == 0 {
        None
    } else if hs[0].date@ == key {
        Some(hs[0])
    } else {
        find_holiday(hs.drop_first(), key)
    }
}

/// For each day, in order, the first holiday record on that day, if any.
pub open spec fn holidays_matching(dates: Seq<Date>, hs: Seq<NagerHoliday>) -> Seq<NagerHoliday>
    decreases dates.len(),
{
    if dates.len() == 0 {
        Seq::empty()
    } else {
        let rest = holidays_matching(dates.drop_last(), hs);
        match find_holiday(hs, iso_date_seq(dates.last())) {
            Some(h) => rest.push(h),
            None => rest,
        }
    }
}

/// Looks up the first holiday record dated `key`.
fn find_holiday_record(hs: &Vec<NagerHoliday>, key: &String) -> (r: Option<NagerHoliday>)
    ensures
        match r {
            Some(h) => find_holiday(hs@, key@) == Some(h),
            None => find_holiday(hs@, key@) matches None::<NagerHoliday>,
        },
{
    let ghost sq = hs@;
    let n = hs.len();
    let mut i: usize = 0;
    proof {
        assert(sq.skip(0) =~= sq);
    }
    while i < n
        invariant
            n == hs@.len(),
            sq == hs@,
            i <= n,
            find_holiday(sq, key@) == find_holiday(sq.skip(i as int), key@),
        decreases n - i,
    {
        proof {
            assert(sq.skip(i as int)[0] == sq[i as int]);
        }
        if hs[i].date.eq(key) {
            return Some(hs[i].clone());
        }
        proof {
            assert(sq.skip(i as int).drop_first() =~= sq.skip(i + 1));
        }
        i = i + 1;
    }
    proof {
        assert(sq.skip(n as int) =~= Seq::<NagerHoliday>::empty());
    }
    None
}

/// The holiday records falling on the given days, one per day that has one,
/// in day order.  A day is matched by the first record that carries its ISO
/// date.
pub fn holidays_on_dates(dates: &Vec<Date>, holidays: &Vec<NagerHoliday>) -> (r: Vec<NagerHoliday>)
    requires
        forall|i: int| 0 <= i < dates@.len() ==> (#[trigger] dates@[i]).wf(),
    ensures
        r@ == holidays_matching(dates@, holidays@),
{
    let mut out: Vec<NagerHoliday> = Vec::new();
    let n = dates.len();
    let mut i: usize = 0;
    while i < n
        invariant
            n == dates@.len(),
            i <= n,
            forall|j: int| 0 <= j < n ==> (#[trigger] dates@[j]).wf(),
            out@ == holidays_matching(dates@.take(i as int), holidays@),
        decreases n - i,
    {
        proof {
            assert(dates@.take(i + 1).drop_last() =~= dates@.take(i as int));
            assert(dates@.take(i + 1).last() == dates@[i as int]);
        }
        let key = format_iso(&dates[i]);
        match find_holiday_record(holidays, &key) {
            Some(h) => {
                out.push(h);
            },
            None => {},
        }
        i = i + 1;
    }
    proof {
        assert(dates@.take(n as int) =~= dates@);
    }
    out
}

/// The days that carry no holiday from `hs`, in order.
pub open spec fn non_holiday_dates(dates: Seq<Date>, hs: Seq<NagerHoliday>) -> Seq<Date>
    decreases dates.len(),
{
    if dates.len() == 0 {
        Seq::empty()
    } else {
        let rest = non_holiday_dates(dates.drop_last(), hs);
        match find_holiday(hs, iso_date_seq(dates.last())) {
            None => rest.push(dates.last()),
            Some(h) => rest,
        }
    }
}

/// The days of `dates` on which none of the given holiday records falls, in
/// order: what is left after skipping the holidays.
pub fn remove_holiday_days(dates: &Vec<Date>, holidays: &Vec<NagerHoliday>) -> (r: Vec<Date>)
    requires
        forall|i: int| 0 <= i < dates@.len() ==> (#[trigger] dates@[i]).wf(),
    ensures
        r@ == non_holiday_dates(dates@, holidays@),
{
    let mut out: Vec<Date> = Vec::new();
    let n = dates.len();
    let mut i: usize = 0;
    while i < n
        invariant
            n == dates@.len(),
            i <= n,
            forall|j: int| 0 <= j < n ==> (#[trigger] dates@[j]).wf(),
            out@ == non_holiday_dates(dates@.take(i as int), holidays@),
        decreases n - i,
    {
        proof {
            assert(dates@.take(i + 1).drop_last() =~= dates@.take(i as int));
            assert(dates@.take(i + 1).last() == dates@[i as int]);
        }
        let key = format_iso(&dates[i]);
        match find_holiday_record(holidays, &key) {
            Some(_) => {},
            None => {
                out.push(dates[i]);
            },
        }
        i = i + 1;
    }
    proof {
        assert(dates@.take(n as int) =~= dates@);
    }
    out
}

} // verus!
