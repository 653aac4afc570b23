//! Parsers for the two user-entered grammars: duration expressions such as
//! `1h30m`, and day expressions such as `2`, `2-5`, `today` or `24-12-2025`.

use vstd::prelude::*;
use crate::dates::{date_fields_wf, datenum_of, prev_date_of, Date};
use crate::strutil::{
    all_digits, chars_eq_str, chars_to_string, digit_val, digits_val, is_digit_char, push_char,
    str_chars, subchars, trim_chars, trim_of, u64_to_string,
};

verus! {

/// Why an expression could not be parsed.
#[derive(Clone, Debug)]
pub enum ParseError {
    /// A duration unit letter appeared with no digits before it.
    MissingNumber(char),
    /// A number in the expression does not fit the arithmetic range.
    NumberTooLarge,
    /// A duration unit letter other than `h` or `m`.
    InvalidUnit(char),
    /// The duration expression ended in digits with no unit letter.
    TrailingDigits(String),
    /// A day-of-month number that does not exist in the current month.
    InvalidDay(u32),
    /// A token that is neither a day number, `today`, `yesterday`, nor a
    /// `DD-MM-YYYY` date.
    InvalidDateFormat(String),
    /// A day range from which the weekend filter removed every day.
    EmptyRange,
}

impl ParseError {
    /// A human-readable description of the error, naming the offending token.
    pub fn message(&self) -> (r: String)
        ensures
            r@ == message_seq(self),
    {
        match self {
            ParseError::MissingNumber(c) => {
                let mut s = String::from_str("No number provided for time unit '");
                push_char(&mut s, *c);
                s.append("'");
                proof {
                    assert(s@ =~= message_seq(self));
                }
                s
            },
            ParseError::NumberTooLarge => String::from_str("Failed to parse number"),
            ParseError::InvalidUnit(c) => {
                let mut s = String::from_str("Invalid time unit: '");
                push_char(&mut s, *c);
                s.append("'");
                proof {
                    assert(s@ =~= message_seq(self));
                }
                s
            },
            ParseError::TrailingDigits(t) => {
                let mut s = String::from_str("Incomplete time format, missing unit for '");
                s.append(t.as_str());
                s.append("'");
                proof {
                    assert(s@ =~= message_seq(self));
                }
                s
            },
            ParseError::InvalidDay(d) => {
                let mut s = String::from_str("Invalid day ");
                let digits = u64_to_string(*d as u64);
                s.append(digits.as_str());
                s.append(" for the current month");
                proof {
                    assert(s@ =~= message_seq(self));
                }
                s
            },
            ParseError::InvalidDateFormat(t) => {
                let mut s = String::from_str("Invalid date format: ");
                s.append(t.as_str());
                proof {
                    assert(s@ =~= message_seq(self));
                }
                s
            },
            ParseError::EmptyRange => String::from_str("No valid dates in the specified range"),
        }
    }
}

/// The message text for each parse error.
pub open spec fn message_seq(e: &ParseError) -> Seq<char> {
    match e {
        ParseError::MissingNumber(c) => "No number provided for time unit '"@ + seq![*c] + "'"@,
        ParseError::NumberTooLarge => "Failed to parse number"@,
        ParseError::InvalidUnit(c) => "Invalid time unit: '"@ + seq![*c] + "'"@,
        ParseError::TrailingDigits(t) => "Incomplete time format, missing unit for '"@ + t@ + "'"@,
        ParseError::InvalidDay(d) => "Invalid day "@ + crate::strutil::dec_seq(*d as int)
            + " for the current month"@,
        ParseError::InvalidDateFormat(t) => "Invalid date format: "@ + t@,
        ParseError::EmptyRange => "No valid dates in the specified range"@,
    }
}

/// What a duration expression denotes: a number of seconds, or the first
/// parse failure reading left to right.
pub enum DurationOutcome {
    /// Total seconds of the expression.
    Seconds(int),
    /// A unit letter with no digits before it.
    MissingNumber(char),
    /// A digit run or the running total exceeds the arithmetic range.
    NumberTooLarge,
    /// A unit letter other than `h` or `m`.
    InvalidUnit(char),
    /// Digits at the end of the expression with no unit letter.
    TrailingDigits(Seq<char>),
}

/// Reads the duration expression `s` from position `i` with `secs` seconds
/// already accumulated and `run` the digits read since the last unit letter.
pub open spec fn duration_outcome_from(s: Seq<char>, i: int, secs: int, run: Seq<char>)
    -> DurationOutcome
    decreases s.len() - i,
{
    if i < 0 || i >= s.len() {
        if run.len() > 0 {
            DurationOutcome::TrailingDigits(run)
        } else {
            DurationOutcome::Seconds(secs)
        }
    } else {
        let c = s[i];
        if is_digit_char(c) {
            duration_outcome_from(s, i + 1, secs, run.push(c))
        } else if run.len() == 0 {
            DurationOutcome::MissingNumber(c)
        } else if digits_val(run) > u64::MAX {
            DurationOutcome::NumberTooLarge
        } else if c == 'h' {
            if secs + digits_val(run) * 3600 > u64::MAX {
                DurationOutcome::NumberTooLarge
            } else {
                duration_outcome_from(s, i + 1, secs + digits_val(run) * 3600, Seq::empty())
            }
        } else if c == 'm' {
            if secs + digits_val(run) * 60 > u64::MAX {
                DurationOutcome::NumberTooLarge
            } else {
                duration_outcome_from(s, i + 1, secs + digits_val(run) * 60, Seq::empty())
            }
        } else {
            DurationOutcome::InvalidUnit(c)
        }
    }
}

/// What the whole duration expression `s` denotes.
pub open spec fn duration_outcome(s: Seq<char>) -> DurationOutcome {
    duration_outcome_from(s, 0, 0, Seq::empty())
}

/// The parse result matches the outcome `o`.
pub open spec fn duration_result_matches(r: Result<u64, ParseError>, o: DurationOutcome) -> bool {
    match o {
        DurationOutcome::Seconds(v) => r matches Ok(x) && x == v,
        DurationOutcome::MissingNumber(c) => r matches Err(ParseError::MissingNumber(c2)) && c2
            == c,
        DurationOutcome::NumberTooLarge => r matches Err(ParseError::NumberTooLarge),
        DurationOutcome::InvalidUnit(c) => r matches Err(ParseError::InvalidUnit(c2)) && c2 == c,
        DurationOutcome::TrailingDigits(t) => r matches Err(ParseError::TrailingDigits(t2)) && t2@
            == t,
    }
}

/// Parses a duration expression: runs of digits each followed by `h` (hours)
/// or `m` (minutes), summed into seconds.  Repeated units accumulate.
///
/// Fails with `MissingNumber` when a unit letter has no digits before it,
/// with `InvalidUnit` on any unit letter other than `h`/`m`, with
/// `TrailingDigits` when the expression ends in digits, and with
/// `NumberTooLarge` when a number or the total does not fit.
pub fn parse_time(time_str: &str) -> (r: Result<u64, ParseError>)
    ensures
        duration_result_matches(r, duration_outcome(time_str@)),
{
    let ghost s = time_str@;
    let n = time_str.unicode_len();
    let mut secs: u64 = 0;
    let mut run_str = String::new();
    let mut run_val: u64 = 0;
    let mut too_big: bool = false;
    let mut i: usize = 0;
    while i < n
        invariant
            n == s.len(),
            s == time_str@,
            i <= n,
            all_digits(run_str@),
            !too_big ==> run_val as int == digits_val(run_str@),
            too_big ==> digits_val(run_str@) > u64::MAX,
            duration_outcome_from(s, i as int, secs as int, run_str@) == duration_outcome(s),
        decreases n - i,
    {
        let c = time_str.get_char(i);
        let ghost i0 = i as int;
        let ghost run0 = run_str@;
        let ghost secs0 = secs as int;
        if '0' <= c && c <= '9' {
            let d: u64 = (c as u32 - 48) as u64;
            proof {
                assert(is_digit_char(c));
                assert(d as int == digit_val(c));
            }
            if !too_big {
                if run_val > (u64::MAX - d) / 10 {
                    proof {
                        let m = (u64::MAX - d) as int;
                        vstd::arithmetic::div_mod::lemma_fundamental_div_mod(m, 10);
                        vstd::arithmetic::mul::lemma_mul_inequality(
                            m / 10 + 1,
                            run_val as int,
                            10,
                        );
                        assert(run_val as int * 10 + d > u64::MAX);
                    }
                    too_big = true;
                } else {
                    proof {
                        let m = (u64::MAX - d) as int;
                        vstd::arithmetic::div_mod::lemma_fundamental_div_mod(m, 10);
                        vstd::arithmetic::mul::lemma_mul_inequality(
                            run_val as int,
                            m / 10,
                            10,
                        );
                        assert(run_val as int * 10 + d <= u64::MAX);
                    }
                    run_val = run_val * 10 + d;
                }
            } else {
                proof {
                    assert(digits_val(run0) * 10 + d as int > u64::MAX) by (nonlinear_arith)
                        requires
                            digits_val(run0) > u64::MAX,
                            d >= 0,
                    ;
                }
            }
            push_char(&mut run_str, c);
            proof {
                assert(run_str@ == run0.push(c));
                assert(run_str@.drop_last() =~= run0);
                assert(run_str@.last() == c);
                assert(digits_val(run_str@) == digits_val(run0) * 10 + digit_val(c));
                assert(forall|j: int|
                    0 <= j < run_str@.len() ==> is_digit_char(#[trigger] run_str@[j]));
                assert(duration_outcome_from(s, i0, secs0, run0) == duration_outcome_from(
                    s,
                    i0 + 1,
                    secs0,
                    run0.push(c),
                ));
            }
        } else if run_str.unicode_len() == 0 {
            proof {
                assert(run0.len() == 0);
                assert(duration_outcome_from(s, i0, secs0, run0)
                    == DurationOutcome::MissingNumber(c));
            }
            return Err(ParseError::MissingNumber(c));
        } else if too_big {
            proof {
                assert(duration_outcome_from(s, i0, secs0, run0) == DurationOutcome::NumberTooLarge);
            }
            return Err(ParseError::NumberTooLarge);
        } else if c == 'h' {
            let factor: u64 = 3600;
            match scale_and_add(secs, run_val, factor) {
                Some(total) => {
                    proof {
                        assert(duration_outcome_from(s, i0, secs0, run0)
                            == duration_outcome_from(
                            s,
                            i0 + 1,
                            secs0 + digits_val(run0) * 3600,
                            Seq::empty(),
                        ));
                    }
                    secs = total;
                },
                None => {
                    proof {
                        assert(duration_outcome_from(s, i0, secs0, run0)
                            == DurationOutcome::NumberTooLarge);
                    }
                    return Err(ParseError::NumberTooLarge);
                },
            }
            run_str = String::new();
            run_val = 0;
        } else if c == 'm' {
            let factor: u64 = 60;
            match scale_and_add(secs, run_val, factor) {
                Some(total) => {
                    proof {
                        assert(duration_outcome_from(s, i0, secs0, run0)
                            == duration_outcome_from(
                            s,
                            i0 + 1,
                            secs0 + digits_val(run0) * 60,
                            Seq::empty(),
                        ));
                    }
                    secs = total;
                },
                None => {
                    proof {
                        assert(duration_outcome_from(s, i0, secs0, run0)
                            == DurationOutcome::NumberTooLarge);
                    }
                    return Err(ParseError::NumberTooLarge);
                },
            }
            run_str = String::new();
            run_val = 0;
        } else {
            proof {
                assert(duration_outcome_from(s, i0, secs0, run0) == DurationOutcome::InvalidUnit(
                    c,
                ));
            }
            return Err(ParseError::InvalidUnit(c));
        }
        i = i + 1;
    }
    if run_str.unicode_len() > 0 {
        Err(ParseError::TrailingDigits(run_str))
    } else {
        Ok(secs)
    }
}

/// `secs + num * factor` if it fits in a `u64`, else `None`.
fn scale_and_add(secs: u64, num: u64, factor: u64) -> (r: Option<u64>)
    requires
        factor >= 1,
    ensures
        match r {
            Some(v) => v as int == secs + num * factor && secs + num * factor <= u64::MAX,
            None => secs + num * factor > u64::MAX,
        },
{
    broadcast use vstd::arithmetic::mul::group_mul_properties;

    proof {
        vstd::arithmetic::div_mod::lemma_fundamental_div_mod(u64::MAX as int, factor as int);
    }
    let q: u64 = u64::MAX / factor;
    if num > q {
        proof {
            vstd::arithmetic::mul::lemma_mul_inequality(q as int + 1, num as int, factor as int);
        }
        return None;
    }
    proof {
        vstd::arithmetic::mul::lemma_mul_inequality(num as int, q as int, factor as int);
    }
    let prod: u64 = num * factor;
    if secs > u64::MAX - prod {
        return None;
    }
    Some(secs + prod)
}

/// The number that a day-count token denotes: an optional `+` sign followed
/// by decimal digits whose value fits an unsigned 32-bit integer.
pub open spec fn parse_u32_spec(s: Seq<char>) -> Option<int> {
    let body = s.subrange(spec_sign_skip(s), s.len() as int);
    if body.len() == 0 || !all_digits(body) || digits_val(body) > u32::MAX {
        None
    } else {
        Some(digits_val(body))
    }
}

/// Index where the digits of a day-count token start: past a leading `+`.
pub open spec fn spec_sign_skip(s: Seq<char>) -> int {
    if s.len() > 0 && s[0] == '+' {
        1
    } else {
        0
    }
}

/// The token body starting at the sign-skip index is a subrange.
proof fn lemma_u32_body_is_subrange(s: Seq<char>, start: int)
    requires
        start == spec_sign_skip(s),
    ensures
        s.subrange(start, s.len() as int).len() == s.len() - start,
{
}

/// Reads a day-count token.
fn parse_u32_chars(v: &Vec<char>) -> (r: Option<u32>)
    ensures
        match r {
            Some(x) => parse_u32_spec(v@) == Some(x as int),
            None => parse_u32_spec(v@) matches None::<int>,
        },
{
    let ghost whole = v@;
    let start: usize = if v.len() > 0 && v[0] == '+' {
        1
    } else {
        0
    };
    proof {
        assert(start as int == spec_sign_skip(whole));
    }
    let ghost body = whole.subrange(start as int, whole.len() as int);
    proof {
        lemma_u32_body_is_subrange(whole, start as int);
    }
    if v.len() == start {
        return None;
    }
    let mut acc: u32 = 0;
    let mut too_big: bool = false;
    let mut i: usize = start;
    while i < v.len()
        invariant
            start <= i <= v@.len(),
            whole == v@,
            body == whole.subrange(start as int, whole.len() as int),
            start == spec_sign_skip(whole),
            all_digits(whole.subrange(start as int, i as int)),
            !too_big ==> acc as int == digits_val(whole.subrange(start as int, i as int)),
            too_big ==> digits_val(whole.subrange(start as int, i as int)) > u32::MAX,
        decreases v@.len() - i,
    {
        let c = v[i];
        let ghost pre = whole.subrange(start as int, i as int);
        if !('0' <= c && c <= '9') {
            proof {
                assert(body[i - start] == c);
                assert(!is_digit_char(c));
                assert(!all_digits(body));
                lemma_u32_body_is_subrange(whole, start as int);
            }
            return None;
        }
        let d: u32 = c as u32 - 48;
        proof {
            assert(d as int == digit_val(c));
            assert(whole.subrange(start as int, i + 1).drop_last() =~= pre);
            assert(whole.subrange(start as int, i + 1).last() == c);
        }
        if !too_big {
            if acc > (u32::MAX - d) / 10 {
                proof {
                    let m = (u32::MAX - d) as int;
                    vstd::arithmetic::div_mod::lemma_fundamental_div_mod(m, 10);
                    vstd::arithmetic::mul::lemma_mul_inequality(m / 10 + 1, acc as int, 10);
                    assert(acc as int * 10 + d > u32::MAX);
                }
                too_big = true;
            } else {
                proof {
                    let m = (u32::MAX - d) as int;
                    vstd::arithmetic::div_mod::lemma_fundamental_div_mod(m, 10);
                    vstd::arithmetic::mul::lemma_mul_inequality(acc as int, m / 10, 10);
                    assert(acc as int * 10 + d <= u32::MAX);
                }
                acc = acc * 10 + d;
            }
        } else {
            proof {
                assert(digits_val(pre) * 10 + d as int > u32::MAX) by (nonlinear_arith)
                    requires
                        digits_val(pre) > u32::MAX,
                        d >= 0,
                ;
            }
        }
        i = i + 1;
    }
    proof {
        assert(whole.subrange(start as int, whole.len() as int) =~= body);
    }
    if too_big {
        None
    } else {
        Some(acc)
    }
}

/// Length of the run of digit characters starting at position `i`.
pub open spec fn digit_run_len(s: Seq<char>, i: int) -> int
    decreases s.len() - i,
{
    if i < 0 || i >= s.len() {
        0
    } else if is_digit_char(s[i]) {
        1 + digit_run_len(s, i + 1)
    } else {
        0
    }
}

/// First index of the digit run's end, starting from `i`.
fn digit_run_end(v: &Vec<char>, i: usize) -> (r: usize)
    requires
        i <= v@.len(),
    ensures
        i <= r <= v@.len(),
        r - i == digit_run_len(v@, i as int),
{
    let mut j: usize = i;
    while j < v.len() && '0' <= v[j] && v[j] <= '9'
        invariant
            i <= j <= v@.len(),
            digit_run_len(v@, i as int) == (j - i) + digit_run_len(v@, j as int),
        decreases v@.len() - j,
    {
        j = j + 1;
    }
    j
}

/// Value of the digits of `v` from `lo` to `hi`, at most four of them.
fn short_digits_value(v: &Vec<char>, lo: usize, hi: usize) -> (r: u32)
    requires
        lo <= hi <= v@.len(),
        hi - lo <= 4,
        all_digits(v@.subrange(lo as int, hi as int)),
    ensures
        r as int == digits_val(v@.subrange(lo as int, hi as int)),
        r <= 9999,
        hi - lo <= 2 ==> r <= 99,
{
    let mut acc: u32 = 0;
    let mut i: usize = lo;
    while i < hi
        invariant
            lo <= i <= hi <= v@.len(),
            hi - lo <= 4,
            all_digits(v@.subrange(lo as int, hi as int)),
            acc as int == digits_val(v@.subrange(lo as int, i as int)),
            i - lo == 0 ==> acc == 0,
            i - lo == 1 ==> acc <= 9,
            i - lo == 2 ==> acc <= 99,
            i - lo == 3 ==> acc <= 999,
            i - lo == 4 ==> acc <= 9999,
        decreases hi - i,
    {
        let c = v[i];
        proof {
            assert(v@.subrange(lo as int, hi as int)[i - lo] == c);
            assert(v@.subrange(lo as int, i + 1).drop_last() =~= v@.subrange(lo as int, i as int));
            assert(v@.subrange(lo as int, i + 1).last() == c);
        }
        acc = acc * 10 + (c as u32 - 48);
        i = i + 1;
    }
    acc
}

/// The day, month and year of a `DD-MM-YYYY` date token: a one- or two-digit
/// day, a one- or two-digit month and a year of up to four digits, separated
/// by single hyphens, with nothing before or after.
pub open spec fn date_token_spec(s: Seq<char>) -> Option<(int, int, int)> {
    let l1 = digit_run_len(s, 0);
    if l1 < 1 || l1 > 2 || l1 >= s.len() || s[l1] != '-' {
        None
    } else {
        let l2 = digit_run_len(s, l1 + 1);
        if l2 < 1 || l2 > 2 || l1 + 1 + l2 >= s.len() || s[l1 + 1 + l2] != '-' {
            None
        } else {
            let rest = s.subrange(l1 + 1 + l2 + 1, s.len() as int);
            if rest.len() < 1 || rest.len() > 4 || !all_digits(rest) {
                None
            } else {
                Some(
                    (
                        digits_val(s.subrange(0, l1)),
                        digits_val(s.subrange(l1 + 1, l1 + 1 + l2)),
                        digits_val(rest),
                    ),
                )
            }
        }
    }
}

/// Reads a `DD-MM-YYYY` date token into day, month and year numbers.
fn parse_date_token(v: &Vec<char>) -> (r: Option<(u32, u32, u32)>)
    ensures
        match r {
            Some(t) => date_token_spec(v@) == Some((t.0 as int, t.1 as int, t.2 as int)) && t.0
                <= 99 && t.1 <= 99 && t.2 <= 9999,
            None => date_token_spec(v@) matches None::<(int, int, int)>,
        },
{
    let e1 = digit_run_end(v, 0);
    if e1 < 1 || e1 > 2 || e1 >= v.len() || v[e1] != '-' {
        return None;
    }
    let e2 = digit_run_end(v, e1 + 1);
    let l2 = e2 - (e1 + 1);
    if l2 < 1 || l2 > 2 || e2 >= v.len() || v[e2] != '-' {
        return None;
    }
    let rest_lo = e2 + 1;
    let rest_len = v.len() - rest_lo;
    if rest_len < 1 || rest_len > 4 {
        return None;
    }
    let rest_end = digit_run_end(v, rest_lo);
    if rest_end < v.len() {
        proof {
            lemma_digit_run_all_digits(v@, rest_lo as int);
            let re = rest_end as int;
            assert(!is_digit_char(v@[re]));
            assert(v@.subrange(rest_lo as int, v@.len() as int)[re - rest_lo] == v@[re]);
        }
        return None;
    }
    proof {
        lemma_digit_run_all_digits(v@, 0);
        lemma_digit_run_all_digits(v@, e1 + 1);
        lemma_digit_run_all_digits(v@, rest_lo as int);
        assert(all_digits(v@.subrange(0, e1 as int)));
        assert(all_digits(v@.subrange(e1 + 1, e2 as int)));
        assert(all_digits(v@.subrange(rest_lo as int, v@.len() as int)));
    }
    let day = short_digits_value(v, 0, e1);
    let month = short_digits_value(v, e1 + 1, e2);
    let year = short_digits_value(v, rest_lo, v.len());
    Some((day, month, year))
}

/// The digit run starting at `i` fits in the string, consists of digits, and
/// stops right before a non-digit.
proof fn lemma_digit_run_all_digits(s: Seq<char>, i: int)
    requires
        0 <= i <= s.len(),
    ensures
        0 <= digit_run_len(s, i) <= s.len() - i,
        forall|j: int|
            i <= j < i + digit_run_len(s, i) ==> is_digit_char(#[trigger] s[j]),
        all_digits(s.subrange(i, i + digit_run_len(s, i))),
        i + digit_run_len(s, i) < s.len() ==> !is_digit_char(s[i + digit_run_len(s, i)]),
    decreases s.len() - i,
{
    if i < s.len() && is_digit_char(s[i]) {
        lemma_digit_run_all_digits(s, i + 1);
    }
    let run = s.subrange(i, i + digit_run_len(s, i));
    assert forall|j: int| 0 <= j < run.len() implies is_digit_char(#[trigger] run[j]) by {
        assert(run[j] == s[i + j]);
    }
}

/// What a single-date token denotes: a date, a day number that does not
/// exist in the current month, or a malformed token.
pub enum SingleDateOutcome {
    /// The date the token names.
    OneDate(Date),
    /// A bare day number out of range for the current month.
    BadDay(int),
    /// A token no single-date rule accepts.
    BadFormat(Seq<char>),
}

/// Resolves one single-date token against `today`: a bare day number names
/// that day of the current month; `today` and `yesterday` name those days;
/// a `DD-MM-YYYY` token names that date.
pub open spec fn single_date_spec(s: Seq<char>, today: Date) -> SingleDateOutcome {
    match parse_u32_spec(s) {
        Some(v) => {
            if date_fields_wf(today.year as int, today.month as int, v) {
                SingleDateOutcome::OneDate(
                    Date { year: today.year, month: today.month, day: v as u8 },
                )
            } else {
                SingleDateOutcome::BadDay(v)
            }
        },
        None => {
            if s == "today"@ {
                SingleDateOutcome::OneDate(today)
            } else if s == "yesterday"@ {
                SingleDateOutcome::OneDate(prev_date_of(today))
            } else {
                match date_token_spec(s) {
                    Some(t) => {
                        if date_fields_wf(t.2, t.1, t.0) {
                            SingleDateOutcome::OneDate(
                                Date { year: t.2 as i32, month: t.1 as u8, day: t.0 as u8 },
                            )
                        } else {
                            SingleDateOutcome::BadFormat(s)
                        }
                    },
                    None => SingleDateOutcome::BadFormat(s),
                }
            }
        },
    }
}

/// The parse result of a single-date token matches its outcome.
pub open spec fn single_result_matches(r: Result<Date, ParseError>, o: SingleDateOutcome) -> bool {
    match o {
        SingleDateOutcome::OneDate(d) => r matches Ok(x) && x == d,
        SingleDateOutcome::BadDay(n) => r matches Err(ParseError::InvalidDay(k)) && k == n,
        SingleDateOutcome::BadFormat(t) => r matches Err(ParseError::InvalidDateFormat(st)) && st@
            == t,
    }
}

/// Resolves one single-date token against `today`.
fn parse_single_date(v: &Vec<char>, today: &Date) -> (r: Result<Date, ParseError>)
    requires
        today.wf(),
        today.datenum() >= 1,
    ensures
        single_result_matches(r, single_date_spec(v@, *today)),
{
    match parse_u32_chars(v) {
        Some(day) => {
            if day <= 31 {
                match Date::from_ymd_opt(today.year, today.month, day as u8) {
                    Some(d) => Ok(d),
                    None => Err(ParseError::InvalidDay(day)),
                }
            } else {
                proof {
                    assert(crate::dates::days_in_month_of(today.year as int, today.month as int)
                        <= 31);
                }
                Err(ParseError::InvalidDay(day))
            }
        },
        None => {
            if chars_eq_str(v, "today") {
                Ok(*today)
            } else if chars_eq_str(v, "yesterday") {
                Ok(today.prev_day())
            } else {
                match parse_date_token(v) {
                    Some((day, month, year)) => {
                        if month <= 12 && day <= 31 {
                            match Date::from_ymd_opt(year as i32, month as u8, day as u8) {
                                Some(d) => Ok(d),
                                None => Err(ParseError::InvalidDateFormat(chars_to_string(v))),
                            }
                        } else {
                            Err(ParseError::InvalidDateFormat(chars_to_string(v)))
                        }
                    },
                    None => Err(ParseError::InvalidDateFormat(chars_to_string(v))),
                }
            }
        },
    }
}

/// A parsed day expression, keeping the three grammatical shapes apart: a
/// single date, an inclusive day-of-month range, or a pair of independent
/// dates written on either side of a hyphen.
#[derive(Clone, Debug)]
pub enum DayExpr {
    /// One date.
    Single(Date),
    /// The days of an `A-B` day-of-month range, in ascending order.
    RangeOfDays(Vec<Date>),
    /// The two dates of an expression whose hyphen separates two single-date
    /// tokens rather than two day numbers.
    PairOfDates(Date, Date),
}

/// The days of the current month from day `d` through day `b`, earliest
/// first, skipping numbers that are not days of the month and, when
/// `with_weekend` is false, days that fall on a weekend.
pub open spec fn range_day_dates(y: int, mo: int, d: int, b: int, with_weekend: bool) -> Seq<Date>
    decreases b - d + 1,
{
    if d > b {
        Seq::empty()
    } else {
        let rest = range_day_dates(y, mo, d + 1, b, with_weekend);
        if date_fields_wf(y, mo, d) && (with_weekend || datenum_of(y, mo, d) % 7 < 5) {
            seq![Date { year: y as i32, month: mo as u8, day: d as u8 }] + rest
        } else {
            rest
        }
    }
}

/// Beyond day 31 a day-of-month range contributes nothing.
proof fn lemma_range_day_dates_high(y: int, mo: int, d: int, b: int, with_weekend: bool)
    requires
        d >= 32,
    ensures
        range_day_dates(y, mo, d, b, with_weekend) == Seq::<Date>::empty(),
    decreases b - d + 1,
{
    if d <= b {
        lemma_range_day_dates_high(y, mo, d + 1, b, with_weekend);
        assert(crate::dates::days_in_month_of(y, mo) <= 31);
    }
}

/// Index of the first hyphen at or after `i`, if any.
pub open spec fn first_dash_from(s: Seq<char>, i: int) -> Option<int>
    decreases s.len() - i,
{
    if i < 0 || i >= s.len() {
        None
    } else if s[i] == '-' {
        Some(i)
    } else {
        first_dash_from(s, i + 1)
    }
}

/// Index of the first hyphen, if any.
fn find_dash(v: &Vec<char>) -> (r: Option<usize>)
    ensures
        match r {
            Some(i) => first_dash_from(v@, 0) == Some(i as int) && i < v@.len() && v@[i as int]
                == '-',
            None => first_dash_from(v@, 0) matches None::<int>,
        },
{
    let mut j: usize = 0;
    while j < v.len()
        invariant
            j <= v@.len(),
            first_dash_from(v@, 0) == first_dash_from(v@, j as int),
        decreases v@.len() - j,
    {
        if v[j] == '-' {
            return Some(j);
        }
        j = j + 1;
    }
    None
}

/// What a whole day expression denotes.
pub enum DayExprOutcome {
    /// One date.
    SingleOut(Date),
    /// The days of a day-of-month range.
    RangeOut(Seq<Date>),
    /// Two independent dates.
    PairOut(Date, Date),
    /// A bare day number out of range for the current month.
    BadDayOut(int),
    /// A token no rule accepts.
    BadFormatOut(Seq<char>),
    /// A range from which filtering removed every day.
    EmptyOut,
}

/// Resolves a whole day expression against `today`.  An expression without a
/// hyphen is a single-date token.  With a hyphen, if both sides (trimmed)
/// are day numbers the expression is an inclusive day-of-month range;
/// otherwise each side is resolved as a single-date token and both dates are
/// returned.
pub open spec fn day_expr_outcome(s: Seq<char>, with_weekend: bool, today: Date)
    -> DayExprOutcome {
    match first_dash_from(s, 0) {
        Some(idx) => {
            let lt = trim_of(s.subrange(0, idx));
            let rt = trim_of(s.subrange(idx + 1, s.len() as int));
            match (parse_u32_spec(lt), parse_u32_spec(rt)) {
                (Some(a), Some(b)) => {
                    let dates = range_day_dates(
                        today.year as int,
                        today.month as int,
                        a,
                        b,
                        with_weekend,
                    );
                    if dates.len() == 0 {
                        DayExprOutcome::EmptyOut
                    } else {
                        DayExprOutcome::RangeOut(dates)
                    }
                },
                _ => {
                    match single_date_spec(lt, today) {
                        SingleDateOutcome::OneDate(d1) => {
                            match single_date_spec(rt, today) {
                                SingleDateOutcome::OneDate(d2) => DayExprOutcome::PairOut(d1, d2),
                                SingleDateOutcome::BadDay(n) => DayExprOutcome::BadDayOut(n),
                                SingleDateOutcome::BadFormat(t) => DayExprOutcome::BadFormatOut(t),
                            }
                        },
                        SingleDateOutcome::BadDay(n) => DayExprOutcome::BadDayOut(n),
                        SingleDateOutcome::BadFormat(t) => DayExprOutcome::BadFormatOut(t),
                    }
                },
            }
        },
        None => {
            match single_date_spec(s, today) {
                SingleDateOutcome::OneDate(d) => DayExprOutcome::SingleOut(d),
                SingleDateOutcome::BadDay(n) => DayExprOutcome::BadDayOut(n),
                SingleDateOutcome::BadFormat(t) => DayExprOutcome::BadFormatOut(t),
            }
        },
    }
}

/// The parsed day expression matches its outcome.
pub open spec fn day_expr_matches(r: Result<DayExpr, ParseError>, o: DayExprOutcome) -> bool {
    match o {
        DayExprOutcome::SingleOut(d) => r matches Ok(DayExpr::Single(x)) && x == d,
        DayExprOutcome::RangeOut(ds) => r matches Ok(DayExpr::RangeOfDays(v)) && v@ == ds,
        DayExprOutcome::PairOut(a, b) => r matches Ok(DayExpr::PairOfDates(x, y)) && x == a && y
            == b,
        DayExprOutcome::BadDayOut(n) => r matches Err(ParseError::InvalidDay(k)) && k == n,
        DayExprOutcome::BadFormatOut(t) => r matches Err(ParseError::InvalidDateFormat(st)) && st@
            == t,
        DayExprOutcome::EmptyOut => r matches Err(ParseError::EmptyRange),
    }
}

/// Parses a day expression, keeping its grammatical shape.
///
/// A bare day number names that day of `today`'s month and fails with
/// `InvalidDay` when the month has no such day.  `today` and `yesterday`
/// name those dates, and a `DD-MM-YYYY` token names that date; any other
/// single token fails with `InvalidDateFormat`.  An `A-B` expression whose
/// sides are both day numbers is an inclusive day-of-month range, filtered
/// to weekdays when `with_weekend` is false, and fails with `EmptyRange`
/// when nothing survives; with any other sides it is a pair of single-date
/// tokens, both returned.
pub fn parse_day_expr(date_str: &str, with_weekend: bool, today: &Date) -> (r: Result<
    DayExpr,
    ParseError,
>)
    requires
        today.wf(),
        today.datenum() >= 1,
    ensures
        day_expr_matches(r, day_expr_outcome(date_str@, with_weekend, *today)),
{
    let chars = str_chars(date_str);
    match find_dash(&chars) {
        Some(idx) => {
            let n = chars.len();
            proof {
                assert(idx < n);
            }
            let left = subchars(&chars, 0, idx);
            let right = subchars(&chars, idx + 1, n);
            let lt = trim_chars(&left);
            let rt = trim_chars(&right);
            let a_opt = parse_u32_chars(&lt);
            let b_opt = parse_u32_chars(&rt);
            match (a_opt, b_opt) {
                (Some(a), Some(b)) => {
                    let dates = collect_range_days(a, b, with_weekend, today);
                    if dates.len() == 0 {
                        Err(ParseError::EmptyRange)
                    } else {
                        Ok(DayExpr::RangeOfDays(dates))
                    }
                },
                _ => {
                    let d1 = match parse_single_date(&lt, today) {
                        Ok(d) => d,
                        Err(e) => {
                            return Err(e);
                        },
                    };
                    let d2 = match parse_single_date(&rt, today) {
                        Ok(d) => d,
                        Err(e) => {
                            return Err(e);
                        },
                    };
                    Ok(DayExpr::PairOfDates(d1, d2))
                },
            }
        },
        None => {
            match parse_single_date(&chars, today) {
                Ok(d) => Ok(DayExpr::Single(d)),
                Err(e) => Err(e),
            }
        },
    }
}

/// The days of an inclusive day-of-month range in `today`'s month.
fn collect_range_days(a: u32, b: u32, with_weekend: bool, today: &Date) -> (r: Vec<Date>)
    requires
        today.wf(),
    ensures
        r@ == range_day_dates(today.year as int, today.month as int, a as int, b as int,
            with_weekend),
        forall|i: int| 0 <= i < r@.len() ==> (#[trigger] r@[i]).wf(),
{
    let ghost y = today.year as int;
    let ghost mo = today.month as int;
    let mut out: Vec<Date> = Vec::new();
    let mut d: u32 = a;
    while d <= b && d <= 32
        invariant
            today.wf(),
            y == today.year as int,
            mo == today.month as int,
            a <= d,
            d > a ==> d <= 33,
            forall|i: int| 0 <= i < out@.len() ==> (#[trigger] out@[i]).wf(),
            out@ + range_day_dates(y, mo, d as int, b as int, with_weekend) == range_day_dates(
                y,
                mo,
                a as int,
                b as int,
                with_weekend,
            ),
        decreases b - d + 1,
    {
        let ghost d0 = d as int;
        if d <= 31 {
            match Date::from_ymd_opt(today.year, today.month, d as u8) {
                Some(date) => {
                    if with_weekend || date.weekday_from_monday() < 5 {
                        out.push(date);
                        proof {
                            assert(out@.drop_last() + (seq![date] + range_day_dates(
                                y,
                                mo,
                                d0 + 1,
                                b as int,
                                with_weekend,
                            )) =~= out@ + range_day_dates(y, mo, d0 + 1, b as int, with_weekend));
                        }
                    }
                },
                None => {
                },
            }
        } else {
            proof {
                lemma_range_day_dates_high(y, mo, d0, b as int, with_weekend);
                lemma_range_day_dates_high(y, mo, d0 + 1, b as int, with_weekend);
            }
        }
        d = d + 1;
    }
    proof {
        if d > b {
            assert(range_day_dates(y, mo, d as int, b as int, with_weekend)
                == Seq::<Date>::empty());
        } else {
            lemma_range_day_dates_high(y, mo, d as int, b as int, with_weekend);
        }
        assert(out@ + Seq::<Date>::empty() =~= out@);
    }
    out
}

/// Parses a day expression into its dates, earliest first.
///
/// The same grammar as [`parse_day_expr`], flattened: a single token yields
/// one date, a day-of-month range its days, and a hyphenated pair of tokens
/// exactly those two dates.
pub fn parse_date(date_str: &str, with_weekend: bool, today: &Date) -> (r: Result<
    Vec<Date>,
    ParseError,
>)
    requires
        today.wf(),
        today.datenum() >= 1,
    ensures
        match day_expr_outcome(date_str@, with_weekend, *today) {
            DayExprOutcome::SingleOut(d) => r matches Ok(v) && v@ == seq![d],
            DayExprOutcome::RangeOut(ds) => r matches Ok(v) && v@ == ds,
            DayExprOutcome::PairOut(a, b) => r matches Ok(v) && v@ == seq![a, b],
            DayExprOutcome::BadDayOut(n) => r matches Err(ParseError::InvalidDay(k)) && k == n,
            DayExprOutcome::BadFormatOut(t) => r matches Err(ParseError::InvalidDateFormat(st))
                && st@ == t,
            DayExprOutcome::EmptyOut => r matches Err(ParseError::EmptyRange),
        },
{
    match parse_day_expr(date_str, with_weekend, today) {
        Ok(DayExpr::Single(d)) => {
            let mut v: Vec<Date> = Vec::new();
            v.push(d);
            proof {
                assert(v@ =~= seq![d]);
            }
            Ok(v)
        },
        Ok(DayExpr::RangeOfDays(v)) => Ok(v),
        Ok(DayExpr::PairOfDates(a, b)) => {
            let mut v: Vec<Date> = Vec::new();
            v.push(a);
            v.push(b);
            proof {
                assert(v@ =~= seq![a, b]);
            }
            Ok(v)
        },
        Err(e) => Err(e),
    }
}

} // verus!
