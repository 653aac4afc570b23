//! Core data model: inclusive date ranges, work-log entries and the
//! per-day aggregation over them.

use vstd::prelude::*;
use crate::dates::{next_date_of, on_day, Date};

verus! {

/// Day numbers from `lo` through `hi`, in ascending order.
pub open spec fn datenums_between(lo: int, hi: int) -> Seq<int>
    decreases hi - lo + 1,
{
    if lo > hi {
        Seq::empty()
    } else {
        seq![lo] + datenums_between(lo + 1, hi)
    }
}

/// The `n` consecutive calendar days starting at `d`.
pub open spec fn dates_from(d: Date, n: nat) -> Seq<Date>
    decreases n,
{
    if n == 0 {
        Seq::empty()
    } else {
        seq![d] + dates_from(next_date_of(d), (n - 1) as nat)
    }
}

/// The `n`-th calendar day after `d`.
pub open spec fn nth_date(d: Date, n: nat) -> Date
    decreases n,
{
    if n == 0 {
        d
    } else {
        nth_date(next_date_of(d), (n - 1) as nat)
    }
}

/// A run of consecutive days grows at its end.
pub proof fn lemma_dates_from_snoc(d: Date, n: nat)
    ensures
        dates_from(d, (n + 1) as nat) == dates_from(d, n).push(nth_date(d, n)),
        nth_date(d, (n + 1) as nat) == next_date_of(nth_date(d, n)),
    decreases n,
{
    if n == 0 {
        assert(dates_from(next_date_of(d), 0) =~= Seq::<Date>::empty());
        assert(nth_date(next_date_of(d), 0) == next_date_of(d));
        assert(dates_from(d, 1) =~= dates_from(d, 0).push(nth_date(d, 0)));
    } else {
        lemma_dates_from_snoc(next_date_of(d), (n - 1) as nat);
        assert(dates_from(d, (n + 1) as nat) =~= seq![d] + dates_from(
            next_date_of(d),
            n,
        ));
        assert(seq![d] + dates_from(next_date_of(d), (n - 1) as nat).push(
            nth_date(next_date_of(d), (n - 1) as nat),
        ) =~= (seq![d] + dates_from(next_date_of(d), (n - 1) as nat)).push(
            nth_date(next_date_of(d), (n - 1) as nat),
        ));
    }
}

/// The days of `s` that fall on a weekday, in order.
pub open spec fn weekday_dates(s: Seq<Date>) -> Seq<Date>
    decreases s.len(),
{
    if s.len() == 0 {
        Seq::empty()
    } else if s.last().weekday_index() < 5 {
        weekday_dates(s.drop_last()).push(s.last())
    } else {
        weekday_dates(s.drop_last())
    }
}

/// The days an inclusive date range spans, earliest first; with
/// `with_weekends` false, only its weekdays.
pub open spec fn range_dates(from: Date, to: Date, with_weekends: bool) -> Seq<Date> {
    let all = if from.datenum() > to.datenum() {
        Seq::<Date>::empty()
    } else {
        dates_from(from, (to.datenum() - from.datenum() + 1) as nat)
    };
    if with_weekends {
        all
    } else {
        weekday_dates(all)
    }
}

/// An inclusive span of calendar days.
#[derive(Clone, Copy, Debug, PartialEq, Eq, Structural)]
pub struct DateRange {
    pub from: Date,
    pub to: Date,
}

impl DateRange {
    /// Both bounds are valid dates and the range is not empty.
    pub open spec fn wf(self) -> bool {
        self.from.wf() && self.to.wf() && self.from.datenum() <= self.to.datenum()
    }

    /// An iterator over the days of this range, earliest first.
    pub fn into_iter(self) -> (r: DateRangeIter)
        requires
            self.from.wf(),
            self.to.wf(),
        ensures
            r.wf(),
            r.remaining() == datenums_between(self.from.datenum(), self.to.datenum()),
    {
        DateRangeIter { current: self.from, end: self.to, exhausted: false }
    }

    /// The days of this range in ascending order; with `with_weekends` false,
    /// Saturdays and Sundays are left out.
    pub fn days(self, with_weekends: bool) -> (r: Vec<Date>)
        requires
            self.from.wf(),
            self.to.wf(),
        ensures
            r@ == range_dates(self.from, self.to, with_weekends),
            forall|i: int| 0 <= i < r@.len() ==> (#[trigger] r@[i]).wf(),
    {
        let mut out: Vec<Date> = Vec::new();
        let ghost lo = self.from.datenum();
        let ghost hi = self.to.datenum();
        if !self.from.is_on_or_before(&self.to) {
            proof {
                assert(weekday_dates(Seq::<Date>::empty()) =~= Seq::<Date>::empty());
                assert(out@ =~= range_dates(self.from, self.to, with_weekends));
            }
            return out;
        }
        let ghost total = (hi - lo + 1) as nat;
        let mut cur: Date = self.from;
        let ghost consumed: nat = 0nat;
        let mut exhausted: bool = false;
        while !exhausted
            invariant
                self.from.wf(),
                self.to.wf(),
                lo == self.from.datenum(),
                hi == self.to.datenum(),
                lo <= hi,
                total == (hi - lo + 1) as nat,
                forall|i: int| 0 <= i < out@.len() ==> (#[trigger] out@[i]).wf(),
                if exhausted {
                    consumed == total && out@ == (if with_weekends {
                        dates_from(self.from, total)
                    } else {
                        weekday_dates(dates_from(self.from, total))
                    })
                } else {
                    &&& consumed <= total - 1
                    &&& cur == nth_date(self.from, consumed)
                    &&& cur.wf()
                    &&& cur.datenum() == lo + consumed
                    &&& out@ == (if with_weekends {
                        dates_from(self.from, consumed)
                    } else {
                        weekday_dates(dates_from(self.from, consumed))
                    })
                },
            decreases total - consumed + (if exhausted {
                0int
            } else {
                1int
            }),
        {
            proof {
                lemma_dates_from_snoc(self.from, consumed);
            }
            let ghost stepped = dates_from(self.from, (consumed + 1) as nat);
            if with_weekends || cur.weekday_from_monday() < 5 {
                out.push(cur);
            }
            proof {
                assert(stepped.drop_last() =~= dates_from(self.from, consumed));
                assert(stepped.last() == cur);
                if !with_weekends {
                    if cur.weekday_index() < 5 {
                        assert(weekday_dates(stepped) == weekday_dates(
                            dates_from(self.from, consumed),
                        ).push(cur));
                    } else {
                        assert(weekday_dates(stepped) == weekday_dates(
                            dates_from(self.from, consumed),
                        ));
                    }
                }
            }
            proof {
                consumed = (consumed + 1) as nat;
            }
            if cur.datenum_u64() == self.to.datenum_u64() {
                exhausted = true;
            } else {
                proof {
                    crate::dates::lemma_datenum_bounds(
                        self.to.year as int,
                        self.to.month as int,
                        self.to.day as int,
                    );
                }
                cur = cur.next_day();
            }
        }
        proof {
            assert(out@ =~= range_dates(self.from, self.to, with_weekends));
        }
        out
    }
}

/// A cursor over the days of a [`DateRange`], earliest first.
pub struct DateRangeIter {
    current: Date,
    end: Date,
    exhausted: bool,
}

impl DateRangeIter {
    /// The cursor stands on a valid date (unless exhausted).
    pub closed spec fn wf(self) -> bool {
        self.current.wf() && self.end.wf()
    }

    /// Day numbers still to be produced, in order.
    pub closed spec fn remaining(self) -> Seq<int> {
        if self.exhausted {
            Seq::empty()
        } else {
            datenums_between(self.current.datenum(), self.end.datenum())
        }
    }

    /// The next day of the range, or `None` once the range is exhausted.
    pub fn next(&mut self) -> (r: Option<Date>)
        requires
            old(self).wf(),
        ensures
            final(self).wf(),
            match r {
                Some(d) => old(self).remaining().len() > 0 && d.wf() && d.datenum() == old(
                    self,
                ).remaining()[0] && final(self).remaining() == old(self).remaining().drop_first(),
                None => old(self).remaining().len() == 0 && final(self).remaining() == Seq::<
                    int,
                >::empty(),
            },
    {
        if self.exhausted || !self.current.is_on_or_before(&self.end) {
            self.exhausted = true;
            return None;
        }
        let d = self.current;
        if self.current.datenum_u64() == self.end.datenum_u64() {
            self.exhausted = true;
        } else {
            proof {
                crate::dates::lemma_datenum_bounds(
                    self.end.year as int,
                    self.end.month as int,
                    self.end.day as int,
                );
            }
            self.current = self.current.next_day();
        }
        proof {
            let e = self.end.datenum();
            assert(datenums_between(d.datenum(), e) == seq![d.datenum()] + datenums_between(
                d.datenum() + 1,
                e,
            ));
            if d.datenum() == e {
                assert(datenums_between(d.datenum() + 1, e) =~= Seq::<int>::empty());
            }
            assert(datenums_between(d.datenum(), e).drop_first() =~= datenums_between(
                d.datenum() + 1,
                e,
            ));
        }
        Some(d)
    }
}

/// A task a user may log time against: an identifier and a display name.
#[derive(Clone, Debug)]
pub struct Task {
    pub id: String,
    pub name: String,
}

/// One recorded unit of work: a Unix timestamp (seconds) of the moment the
/// work was logged, the task identifier, and the displayed duration string.
#[derive(Debug)]
pub struct WorkLog {
    pub day: i64,
    pub task: String,
    pub time_spent: String,
}

impl Clone for WorkLog {
    /// Copies the entry field for field.
    fn clone(&self) -> (r: Self)
        ensures
            r == *self,
    {
        WorkLog { day: self.day, task: self.task.clone(), time_spent: self.time_spent.clone() }
    }
}

/// The subsequence of `s` whose timestamps fall on day `d`, keeping order.
pub open spec fn logs_on_day(s: Seq<WorkLog>, d: Date) -> Seq<WorkLog>
    decreases s.len(),
{
    if s.len() == 0 {
        Seq::empty()
    } else if on_day(s.last().day as int, d) {
        logs_on_day(s.drop_last(), d).push(s.last())
    } else {
        logs_on_day(s.drop_last(), d)
    }
}

/// A list of work-log entries.
pub type WorkLogList = Vec<WorkLog>;

/// Per-day selection over a list of work-log entries.
pub trait WorkLogListExt {
    /// The entries of the list, in order.
    spec fn log_seq(&self) -> Seq<WorkLog>;

    /// The entries of `self` recorded on day `day`, keeping their relative
    /// order.
    fn get_by_day(&self, day: &Date) -> (r: Vec<WorkLog>)
        requires
            day.wf(),
        ensures
            r@ == logs_on_day(self.log_seq(), *day),
    ;
}

impl WorkLogListExt for WorkLogList {
    open spec fn log_seq(&self) -> Seq<WorkLog> {
        self@
    }

    fn get_by_day(&self, day: &Date) -> (r: Vec<WorkLog>) {
        let mut out: Vec<WorkLog> = Vec::new();
        let n = self.len();
        let mut i: usize = 0;
        while i < n
            invariant
                day.wf(),
                n == self@.len(),
                i <= n,
                out@ == logs_on_day(self@.take(i as int), *day),
            decreases n - i,
        {
            proof {
                assert(self@.take(i + 1).drop_last() =~= self@.take(i as int));
                assert(self@.take(i + 1).last() == self@[i as int]);
            }
            if crate::dates::same_day(self[i].day, day) {
                out.push(self[i].clone());
            }
            i = i + 1;
        }
        proof {
            assert(self@.take(n as int) =~= self@);
        }
        out
    }
}

} // verus!
