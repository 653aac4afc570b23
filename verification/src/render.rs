//! The calendar grid renderer.
//!
//! A range of days becomes a week-by-week table: each day is one cell whose
//! first line is the centered day number and whose body lines are the
//! holiday name (if any) and one line per work-log entry.  Styling is
//! computed as data — a [`DayStyle`] tag per cell — and kept apart from the
//! text layout, so the byte output never depends on styling.

use vstd::prelude::*;
use cli_table::{Style, Table};
use crate::dates::{iso_date_seq, Date};
use crate::holidays::HolidayMap;
use crate::models::{logs_on_day, DateRange, Task, WorkLog, WorkLogList, WorkLogListExt};
use crate::strutil::{dec_seq, push_char, u64_to_string};

verus! {

/// How a day's number is styled, by the first matching rule: a holiday, a
/// weekend day, the current day with nothing logged, the current day, or a
/// plain day.
#[derive(Clone, Copy, Debug, PartialEq, Eq, Structural)]
pub enum DayStyle {
    /// The day is a public holiday.
    Holiday,
    /// The day falls on a weekend.
    Weekend,
    /// The day is today and has no logged entries.
    EmptyToday,
    /// The day is today.
    Today,
    /// Any other day.
    Normal,
}

/// The styling rule: holiday before weekend before empty-today before today.
pub open spec fn style_of(has_holiday: bool, weekday_index: int, has_logs: bool, is_today: bool)
    -> DayStyle {
    if has_holiday {
        DayStyle::Holiday
    } else if weekday_index >= 5 {
        DayStyle::Weekend
    } else if !has_logs && is_today {
        DayStyle::EmptyToday
    } else if is_today {
        DayStyle::Today
    } else {
        DayStyle::Normal
    }
}

/// Applies the styling rule.
pub fn style_for_day(has_holiday: bool, weekday_index: u8, has_logs: bool, is_today: bool) -> (r:
    DayStyle)
    ensures
        r == style_of(has_holiday, weekday_index as int, has_logs, is_today),
{
    if has_holiday {
        DayStyle::Holiday
    } else if weekday_index >= 5 {
        DayStyle::Weekend
    } else if !has_logs && is_today {
        DayStyle::EmptyToday
    } else if is_today {
        DayStyle::Today
    } else {
        DayStyle::Normal
    }
}

/// `n` spaces.
pub open spec fn spaces(n: int) -> Seq<char> {
    Seq::new(
        (if n < 0 {
            0
        } else {
            n
        }) as nat,
        |i: int| ' ',
    )
}

/// `s` centered to width `w`: as many spaces on each side as make up the
/// width, the odd space going to the right.  A line at least `w` wide stays
/// as it is.
pub open spec fn centered(s: Seq<char>, w: int) -> Seq<char> {
    if s.len() >= w {
        s
    } else {
        let pad = w - s.len();
        spaces(pad / 2) + s + spaces(pad - pad / 2)
    }
}

/// The display line of one work-log entry: the task identifier, and the
/// duration in parentheses unless it is exactly the sentinel `1d`.
pub open spec fn task_line(w: WorkLog) -> Seq<char> {
    if w.time_spent@ == "1d"@ {
        w.task@
    } else {
        w.task@ + " ("@ + w.time_spent@ + ")"@
    }
}

/// The body lines of a cell: the holiday name first if there is one, then
/// one line per entry; an entirely empty body is a single `-`.
pub open spec fn body_lines(day_logs: Seq<WorkLog>, holiday: Option<Seq<char>>) -> Seq<Seq<char>> {
    let task_lines = day_logs.map_values(|w: WorkLog| task_line(w));
    let with_holiday = match holiday {
        Some(h) => seq![h] + task_lines,
        None => task_lines,
    };
    if with_holiday.len() == 0 {
        seq!["-"@]
    } else {
        with_holiday
    }
}

/// The widest line, in characters.
pub open spec fn max_width(lines: Seq<Seq<char>>) -> int
    decreases lines.len(),
{
    if lines.len() == 0 {
        0
    } else {
        let rest = max_width(lines.drop_last());
        if lines.last().len() > rest {
            lines.last().len() as int
        } else {
            rest
        }
    }
}

/// Lines joined with newlines.
pub open spec fn join_lines(lines: Seq<Seq<char>>) -> Seq<char>
    decreases lines.len(),
{
    if lines.len() == 0 {
        Seq::empty()
    } else if lines.len() == 1 {
        lines[0]
    } else {
        join_lines(lines.drop_last()) + "\n"@ + lines.last()
    }
}

/// The full text of one day cell: the day number centered over the body's
/// width, then the body lines.
pub open spec fn cell_text(day: Date, day_logs: Seq<WorkLog>, holiday: Option<Seq<char>>) -> Seq<
    char,
> {
    let body = body_lines(day_logs, holiday);
    centered(dec_seq(day.day as int), max_width(body)) + "\n"@ + join_lines(body)
}

/// One rendered cell: its style tag and its text.
#[derive(Debug)]
pub struct CellView {
    pub style: DayStyle,
    pub text: String,
}

/// Appends `n` spaces.
fn push_spaces(out: &mut String, n: usize)
    ensures
        final(out)@ == old(out)@ + spaces(n as int),
{
    let mut j: usize = 0;
    while j < n
        invariant
            j <= n,
            out@ == old(out)@ + spaces(j as int),
        decreases n - j,
    {
        push_char(out, ' ');
        proof {
            assert(old(out)@ + spaces(j as int) + seq![' '] =~= old(out)@ + spaces(j + 1));
        }
        j = j + 1;
    }
    proof {
        assert(out@ =~= old(out)@ + spaces(n as int));
    }
}

/// Centers `s` to width `w`.
fn center_line(s: &String, w: usize) -> (r: String)
    ensures
        r@ == centered(s@, w as int),
{
    let len = s.as_str().unicode_len();
    if len >= w {
        return s.clone();
    }
    let pad = w - len;
    let left = pad / 2;
    let mut out = String::new();
    push_spaces(&mut out, left);
    out.append(s.as_str());
    push_spaces(&mut out, pad - left);
    proof {
        assert(out@ =~= centered(s@, w as int));
    }
    out
}

/// The display line of one work-log entry.
fn format_task_line(w: &WorkLog) -> (r: String)
    ensures
        r@ == task_line(*w),
{
    if crate::strutil::str_eq_str(w.time_spent.as_str(), "1d") {
        w.task.clone()
    } else {
        let mut out = w.task.clone();
        out.append(" (");
        out.append(w.time_spent.as_str());
        out.append(")");
        out
    }
}

/// The widest line of `lines`, in characters.
fn max_line_width(lines: &Vec<String>) -> (r: usize)
    ensures
        r as int == max_width(lines.deep_view()),
{
    let mut acc: usize = 0;
    let mut i: usize = 0;
    while i < lines.len()
        invariant
            i <= lines@.len(),
            acc as int == max_width(lines.deep_view().take(i as int)),
        decreases lines@.len() - i,
    {
        let len = lines[i].as_str().unicode_len();
        proof {
            assert(lines.deep_view().take(i + 1).drop_last() =~= lines.deep_view().take(i as int));
            assert(lines.deep_view().take(i + 1).last() == lines.deep_view()[i as int]);
            assert(lines.deep_view()[i as int] == lines@[i as int]@);
        }
        if len > acc {
            acc = len;
        }
        i = i + 1;
    }
    proof {
        assert(lines.deep_view().take(lines@.len() as int) =~= lines.deep_view());
    }
    acc
}

/// Joins lines with newlines.
fn join_line_vec(lines: &Vec<String>) -> (r: String)
    ensures
        r@ == join_lines(lines.deep_view()),
{
    let mut out = String::new();
    let mut i: usize = 0;
    while i < lines.len()
        invariant
            i <= lines@.len(),
            out@ == join_lines(lines.deep_view().take(i as int)),
        decreases lines@.len() - i,
    {
        proof {
            assert(lines.deep_view().take(i + 1).drop_last() =~= lines.deep_view().take(i as int));
            assert(lines.deep_view().take(i + 1).last() == lines@[i as int]@);
            assert(lines.deep_view().take(1)[0] == lines@[0]@);
        }
        if i > 0 {
            out.append("\n");
        }
        out.append(lines[i].as_str());
        proof {
            if i == 0 {
                assert(out@ =~= join_lines(lines.deep_view().take(1)));
            }
        }
        i = i + 1;
    }
    proof {
        assert(lines.deep_view().take(lines@.len() as int) =~= lines.deep_view());
    }
    out
}

/// Builds one day cell from the day, its log entries and its holiday name.
/// The style tag follows the holiday / weekend / empty-today / today rule;
/// the text is the centered day number over the body lines.
pub fn render_cell(day: &Date, day_logs: &Vec<WorkLog>, holiday: Option<String>, today: &Date)
    -> (r: CellView)
    requires
        day.wf(),
    ensures
        r.text@ == cell_text(
            *day,
            day_logs@,
            match holiday {
                Some(h) => Some(h@),
                None => None,
            },
        ),
        r.style == style_of(
            holiday matches Some(_),
            day.weekday_index(),
            day_logs@.len() > 0,
            *day == *today,
        ),
{
    let ghost holiday_view: Option<Seq<char>> = match holiday {
        Some(ref h) => Some(h@),
        None => None,
    };
    let style = style_for_day(
        match holiday {
            Some(_) => true,
            None => false,
        },
        day.weekday_from_monday(),
        day_logs.len() > 0,
        *day == *today,
    );
    let mut lines: Vec<String> = Vec::new();
    match holiday {
        Some(h) => {
            lines.push(h);
        },
        None => {},
    }
    let ghost holiday_count = lines@.len() as int;
    let n = day_logs.len();
    let mut i: usize = 0;
    while i < n
        invariant
            n == day_logs@.len(),
            i <= n,
            lines.deep_view().len() == holiday_count + i,
            holiday_count == match holiday_view {
                Some(_) => 1int,
                None => 0int,
            },
            holiday_view matches Some(h) ==> lines.deep_view().len() > 0 && lines.deep_view()[0]
                == h,
            forall|j: int|
                0 <= j < i ==> lines.deep_view()[holiday_count + j] == task_line(
                    #[trigger] day_logs@[j],
                ),
        decreases n - i,
    {
        lines.push(format_task_line(&day_logs[i]));
        i = i + 1;
    }
    proof {
        assert(lines.deep_view() =~= match holiday_view {
            Some(h) => seq![h] + day_logs@.map_values(|w: WorkLog| task_line(w)),
            None => day_logs@.map_values(|w: WorkLog| task_line(w)),
        });
    }
    if lines.len() == 0 {
        lines.push(String::from_str("-"));
        proof {
            assert(lines.deep_view() =~= seq!["-"@]);
        }
    }
    proof {
        assert(lines.deep_view() == body_lines(day_logs@, holiday_view));
    }
    let width = max_line_width(&lines);
    let day_num = u64_to_string(day.day as u64);
    let mut text = center_line(&day_num, width);
    text.append("\n");
    let body = join_line_vec(&lines);
    text.append(body.as_str());
    CellView { style, text }
}

/// Why rendering could fail: the table layouter reported an error.
#[derive(Clone, Copy, Debug, PartialEq, Eq, Structural)]
pub enum RenderError {
    /// The table layouter could not produce its text.
    TableFailure,
}

/// The text that the table layouter produces for the given header cells and
/// rows of cells.
pub uninterp spec fn table_text_of(header: Seq<Seq<char>>, rows: Seq<Seq<Seq<char>>>) -> Seq<char>;

/// Relies on `cli_table`: building a table from plain string cells with a
/// title row, center justification and colors switched off, then rendering
/// it with `display`, is a pure function of the cell texts (all writes go to
/// in-memory buffers, which never fail), so the call always succeeds and its
/// text depends on the header and rows alone.
#[verifier::external_body]
fn layout_table(header: &Vec<String>, rows: &Vec<Vec<String>>) -> (r: Result<String, RenderError>)
    ensures
        r is Ok,
        r->Ok_0@ == table_text_of(header.deep_view(), rows.deep_view()),
{
    let t = rows
        .iter()
        .map(|row| row.iter().map(|c| cli_table::Cell::cell(c.as_str()).justify(cli_table::format::Justify::Center)).collect::<Vec<_>>())
        .collect::<Vec<_>>()
        .table()
        .title(header.iter().map(|h| cli_table::Cell::cell(h.as_str()).justify(cli_table::format::Justify::Center)).collect::<Vec<_>>())
        .bold(true)
        .color_choice(cli_table::ColorChoice::Never);
    match t.display() {
        Ok(d) => Ok(d.to_string()),
        Err(_) => Err(RenderError::TableFailure),
    }
}

/// The abbreviated weekday names, Monday first.
pub open spec fn weekday_names() -> Seq<Seq<char>> {
    seq!["Mon"@, "Tue"@, "Wed"@, "Thu"@, "Fri"@, "Sat"@, "Sun"@]
}

/// The first `k` abbreviated weekday names.
fn weekday_header(k: usize) -> (r: Vec<String>)
    requires
        k == 5 || k == 7,
    ensures
        r.deep_view() == weekday_names().take(k as int),
{
    let mut out: Vec<String> = Vec::new();
    out.push(String::from_str("Mon"));
    out.push(String::from_str("Tue"));
    out.push(String::from_str("Wed"));
    out.push(String::from_str("Thu"));
    out.push(String::from_str("Fri"));
    if k == 7 {
        out.push(String::from_str("Sat"));
        out.push(String::from_str("Sun"));
    }
    proof {
        assert(out.deep_view() =~= weekday_names().take(k as int));
    }
    out
}

/// `cells` cut into consecutive rows of at most `k` cells.
pub open spec fn chunk_rows(cells: Seq<Seq<char>>, k: int) -> Seq<Seq<Seq<char>>>
    decreases cells.len(),
{
    if k < 1 || cells.len() == 0 {
        Seq::empty()
    } else if cells.len() <= k {
        seq![cells]
    } else {
        seq![cells.take(k)] + chunk_rows(cells.skip(k), k)
    }
}

/// Cuts `cells` into consecutive rows of at most `k` cells.
fn chunk_cells(cells: &Vec<String>, k: usize) -> (r: Vec<Vec<String>>)
    requires
        1 <= k,
    ensures
        r.deep_view() == chunk_rows(cells.deep_view(), k as int),
{
    let ghost all = cells.deep_view();
    let mut rows: Vec<Vec<String>> = Vec::new();
    let n = cells.len();
    let mut pos: usize = 0;
    proof {
        assert(all.skip(0) =~= all);
        assert(Seq::<Seq<Seq<char>>>::empty() + chunk_rows(all, k as int) =~= chunk_rows(
            all,
            k as int,
        ));
        assert(rows.deep_view() =~= Seq::<Seq<Seq<char>>>::empty());
    }
    while pos < n
        invariant
            1 <= k,
            n == cells@.len(),
            all == cells.deep_view(),
            pos <= n,
            rows.deep_view() + chunk_rows(all.skip(pos as int), k as int) == chunk_rows(
                all,
                k as int,
            ),
        decreases n - pos,
    {
        let end = if n - pos < k {
            n
        } else {
            pos + k
        };
        let mut row: Vec<String> = Vec::new();
        let mut j: usize = pos;
        while j < end
            invariant
                pos <= j <= end <= n,
                n == cells@.len(),
                all == cells.deep_view(),
                row.deep_view() == all.subrange(pos as int, j as int),
            decreases end - j,
        {
            let ghost rdv0 = row.deep_view();
            row.push(cells[j].clone());
            proof {
                assert(row@.last() == cells@[j as int]);
                assert(row.deep_view() =~= rdv0.push(cells@[j as int]@));
                assert(all[j as int] == cells@[j as int]@);
                assert(all.subrange(pos as int, j + 1) =~= all.subrange(
                    pos as int,
                    j as int,
                ).push(all[j as int]));
            }
            j = j + 1;
        }
        let ghost rows0 = rows.deep_view();
        rows.push(row);
        proof {
            let rest = all.skip(pos as int);
            if rest.len() <= k as int {
                assert(row.deep_view() =~= rest);
                assert(all.skip(end as int).len() == 0);
                assert(rows.deep_view() =~= rows0.push(rest));
                assert(rows0.push(rest) + chunk_rows(all.skip(end as int), k as int) =~= rows0 + (
                seq![rest] + chunk_rows(all.skip(end as int), k as int)));
                assert(chunk_rows(all.skip(end as int), k as int) =~= Seq::<Seq<Seq<char>>>::empty());
                assert(seq![rest] + Seq::<Seq<Seq<char>>>::empty() =~= chunk_rows(rest, k as int));
            } else {
                assert(row.deep_view() =~= rest.take(k as int));
                assert(all.skip(end as int) =~= rest.skip(k as int));
                assert(rows.deep_view() =~= rows0.push(rest.take(k as int)));
                assert(rows0.push(rest.take(k as int)) + chunk_rows(rest.skip(k as int), k as int)
                    =~= rows0 + (seq![rest.take(k as int)] + chunk_rows(
                    rest.skip(k as int),
                    k as int,
                )));
            }
        }
        pos = end;
    }
    proof {
        assert(all.skip(n as int).len() == 0);
        assert(chunk_rows(all.skip(n as int), k as int) =~= Seq::<Seq<Seq<char>>>::empty());
        assert(rows.deep_view() + Seq::<Seq<Seq<char>>>::empty() =~= rows.deep_view());
    }
    rows
}

/// The holiday name for a day, as the map's lookup of its ISO date.
pub open spec fn holiday_for_day(hm: Option<HolidayMap>, d: Date) -> Option<Seq<char>> {
    match hm {
        Some(m) => m.spec_get(iso_date_seq(d)),
        None => None,
    }
}

/// The cell texts of the given days.
pub open spec fn cells_of_days(
    days: Seq<Date>,
    logs: Seq<WorkLog>,
    hm: Option<HolidayMap>,
) -> Seq<Seq<char>> {
    days.map_values(|d: Date| cell_text(d, logs_on_day(logs, d), holiday_for_day(hm, d)))
}

/// The text of the whole grid for the given days: their cells cut into rows
/// of `k`, laid out as a table under the first `k` weekday names.
pub open spec fn grid_text(
    days: Seq<Date>,
    logs: Seq<WorkLog>,
    hm: Option<HolidayMap>,
    k: int,
) -> Seq<char> {
    table_text_of(weekday_names().take(k), chunk_rows(cells_of_days(days, logs, hm), k))
}

/// The calendar grid for a date range: one cell per day (weekends left out
/// when `show_weekends` is false), seven cells per row when weekends are
/// shown and five otherwise, under a header of weekday names.  Each cell
/// shows the day number over the day's holiday name and log entries.
///
/// Rendering is deterministic: the text depends only on the range, the
/// entries, the flag, the holiday map and `today`.
#[verifier::rlimit(60)]
pub fn render(
    range: DateRange,
    tasks: WorkLogList,
    show_weekends: bool,
    holiday_map: Option<HolidayMap>,
    today: &Date,
) -> (r: Result<String, RenderError>)
    requires
        range.from.wf(),
        range.to.wf(),
        today.wf(),
    ensures
        r matches Ok(s) && s@ == grid_text(
            crate::models::range_dates(range.from, range.to, show_weekends),
            tasks@,
            holiday_map,
            if show_weekends {
                7int
            } else {
                5int
            },
        ),
{
    let limit: usize = if show_weekends {
        7
    } else {
        5
    };
    let days = range.days(show_weekends);
    let ghost dseq = crate::models::range_dates(range.from, range.to, show_weekends);
    let mut cells: Vec<String> = Vec::new();
    let n = days.len();
    let mut i: usize = 0;
    while i < n
        invariant
            n == days@.len(),
            days@ == dseq,
            today.wf(),
            forall|j: int| 0 <= j < n ==> (#[trigger] days@[j]).wf(),
            i <= n,
            cells.deep_view() == cells_of_days(dseq, tasks@, holiday_map).take(i as int),
        decreases n - i,
    {
        let day = days[i];
        let day_logs = tasks.get_by_day(&day);
        let holiday: Option<String> = match &holiday_map {
            Some(m) => m.get(&crate::dates::format_iso(&day)),
            None => None,
        };
        proof {
            assert(day == dseq[i as int]);
            assert(cells_of_days(dseq, tasks@, holiday_map)[i as int] == cell_text(
                day,
                logs_on_day(tasks@, day),
                holiday_for_day(holiday_map, day),
            ));
        }
        let ghost cdv0 = cells.deep_view();
        let cell = render_cell(&day, &day_logs, holiday, today);
        cells.push(cell.text);
        proof {
            assert(cells.deep_view() =~= cdv0.push(cell.text@));
            assert(cells.deep_view() =~= cells_of_days(dseq, tasks@, holiday_map).take(i + 1));
        }
        i = i + 1;
    }
    proof {
        assert(cells_of_days(dseq, tasks@, holiday_map).take(n as int) =~= cells_of_days(
            dseq,
            tasks@,
            holiday_map,
        ));
    }
    let rows = chunk_cells(&cells, limit);
    let header = weekday_header(limit);
    layout_table(&header, &rows)
}

/// Rendering the same inputs twice yields byte-identical text: the grid is a
/// function of the range's days, the entries, the holiday map and the row
/// width alone.
pub proof fn lemma_render_idempotent(
    days: Seq<Date>,
    logs: Seq<WorkLog>,
    hm: Option<HolidayMap>,
    k: int,
    s1: Seq<char>,
    s2: Seq<char>,
)
    requires
        s1 == grid_text(days, logs, hm, k),
        s2 == grid_text(days, logs, hm, k),
    ensures
        s1 == s2,
{
}

/// The task-listing text: a heading line, then `[id] name` per task.
pub open spec fn works_on_seq(tasks: Seq<Task>) -> Seq<char> {
    "Actually you work on:\n"@ + join_lines(
        tasks.map_values(|t: Task| "["@ + t.id@ + "] "@ + t.name@),
    )
}

/// Lists the currently assigned tasks, one `[id] name` line per task under a
/// heading, independent of any grid settings.
pub fn works_on(tasks: Vec<Task>) -> (r: String)
    ensures
        r@ == works_on_seq(tasks@),
{
    let ghost lines = tasks@.map_values(|t: Task| "["@ + t.id@ + "] "@ + t.name@);
    let mut out = String::from_str("Actually you work on:\n");
    let n = tasks.len();
    let mut i: usize = 0;
    while i < n
        invariant
            n == tasks@.len(),
            lines == tasks@.map_values(|t: Task| "["@ + t.id@ + "] "@ + t.name@),
            i <= n,
            out@ == "Actually you work on:\n"@ + join_lines(lines.take(i as int)),
        decreases n - i,
    {
        proof {
            assert(lines.take(i + 1).drop_last() =~= lines.take(i as int));
            assert(lines.take(i + 1).last() == lines[i as int]);
            assert(lines.take(1)[0] == lines[0]);
        }
        if i > 0 {
            out.append("\n");
        }
        out.append("[");
        out.append(tasks[i].id.as_str());
        out.append("] ");
        out.append(tasks[i].name.as_str());
        proof {
            if i == 0 {
                assert(out@ =~= "Actually you work on:\n"@ + join_lines(lines.take(1)));
            } else {
                assert(out@ =~= "Actually you work on:\n"@ + join_lines(lines.take(i + 1)));
            }
        }
        i = i + 1;
    }
    proof {
        assert(lines.take(n as int) =~= lines);
    }
    out
}

} // verus!
