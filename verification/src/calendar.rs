//! The month calendar of the sidebar, relative times and day labels.
use vstd::prelude::*;
use chrono::Datelike;
use crate::chars::{chars_eq, chars_lt, chars_of, seq_lt, string_of};
use crate::num::{dec, dec_chars};
use crate::db::two_digits;

verus! {

// ---------------------------------------------------------------------------
// Outside calls (chrono)
// ---------------------------------------------------------------------------

/// A leap year of the proleptic Gregorian calendar (year 0 is one).
pub open spec fn is_leap_year(year: int) -> bool {
    year % 4 == 0 && (year % 100 != 0 || year % 400 == 0)
}

/// The number of days of `month` in `year`.
pub open spec fn month_length(year: int, month: int) -> int {
    if month == 2 {
        if is_leap_year(year) {
            29
        } else {
            28
        }
    } else if month == 4 || month == 6 || month == 9 || month == 11 {
        30
    } else {
        31
    }
}

/// The days from 0001-01-01 to the first day of `year`.
pub open spec fn days_before_year(year: int) -> int {
    let p = year - 1;
    p * 365 + p / 4 - p / 100 + p / 400
}

/// The days of `year` before the first day of `month`.
pub open spec fn days_before_month(year: int, month: int) -> int
    decreases month,
{
    if month <= 1 {
        0
    } else {
        days_before_month(year, month - 1) + month_length(year, month - 1)
    }
}

/// The weekday of `year-month-day` counted from Monday = 0 (0001-01-01 was
/// a Monday).
pub open spec fn weekday_from_monday(year: int, month: int, day: int) -> int {
    (days_before_year(year) + days_before_month(year, month) + day - 1) % 7
}

/// `n` (not negative) in at least four digits, zero padded.
pub open spec fn four_digits(n: int) -> Seq<char> {
    if n < 10 {
        seq!['0', '0', '0'] + dec(n)
    } else if n < 100 {
        seq!['0', '0'] + dec(n)
    } else if n < 1000 {
        seq!['0'] + dec(n)
    } else {
        dec(n)
    }
}

/// A year as chrono's `%Y` writes it: four digits from 0 to 9999, else
/// with its sign (`+10000`, `-0001`).
pub open spec fn year_text(year: int) -> Seq<char> {
    if 0 <= year <= 9999 {
        four_digits(year)
    } else if year > 9999 {
        seq!['+'] + dec(year)
    } else {
        seq!['-'] + four_digits(-year)
    }
}

/// `year-month-day` written with chrono's `%Y-%m-%d`.
pub open spec fn ymd_text(year: int, month: int, day: int) -> Seq<char> {
    year_text(year) + seq!['-'] + two_digits(month) + seq!['-'] + two_digits(day)
}

/// The Unix time (UTC) of a text parsed with `%Y-%m-%d %H:%M:%S` (chrono),
/// or `None` when it does not parse.
pub uninterp spec fn datetime_secs(text: Seq<char>) -> Option<int>;

/// A text parsed as a date with `%Y-%m-%d` and written back with
/// `%b %d, %Y` (chrono), or `None` when it does not parse.
pub uninterp spec fn date_as_label(text: Seq<char>) -> Option<Seq<char>>;

/// A text parsed with `%Y-%m-%d %H:%M:%S` and written back with
/// `%b %d, %Y %I:%M %p` (chrono), or `None` when it does not parse.
pub uninterp spec fn datetime_as_label(text: Seq<char>) -> Option<Seq<char>>;

/// Years that `chrono::NaiveDate` holds (`MIN_YEAR..=MAX_YEAR`).
pub open spec fn chrono_year(year: int) -> bool {
    -262143 <= year <= 262142
}

/// `NaiveDate::from_ymd_opt(year, month, 1).weekday().num_days_from_monday()`:
/// the weekday of the first of the month, Monday = 0.
#[verifier::external_body]
fn first_weekday(year: i32, month: u32) -> (res: u32)
    requires
        chrono_year(year as int),
        1 <= month <= 12,
    ensures
        res as int == weekday_from_monday(year as int, month as int, 1),
        res < 7,
{
    chrono::NaiveDate::from_ymd_opt(year, month, 1).unwrap().weekday().num_days_from_monday()
}

/// `NaiveDate::from_ymd_opt(year, month, 1).pred_opt().day()`: the day
/// number of the last day of the month before; `year-month-01` is not
/// chrono's first date.
#[verifier::external_body]
fn day_before_first(year: i32, month: u32) -> (res: u32)
    requires
        chrono_year(year as int),
        1 <= month <= 12,
        !(year == -262143 && month == 1),
    ensures
        res as int == if month == 1 {
            month_length(year - 1, 12)
        } else {
            month_length(year as int, month - 1)
        },
{
    chrono::NaiveDate::from_ymd_opt(year, month, 1).unwrap().pred_opt().unwrap().day()
}

/// The month's length, 1 to 31: the day before the first of the next month.
fn last_day_of_month(year: i32, month: u32) -> (res: u32)
    requires
        chrono_year(year as int),
        month == 12 ==> chrono_year(year + 1),
        1 <= month <= 12,
    ensures
        res as int == month_length(year as int, month as int),
        1 <= res <= 31,
{
    if month == 12 {
        day_before_first(year + 1, 1)
    } else {
        day_before_first(year, month + 1)
    }
}

/// `NaiveDate::from_ymd_opt(year, month, day).format("%Y-%m-%d")`: the
/// date written as chrono writes it.
#[verifier::external_body]
fn format_ymd(year: i32, month: u32, day: u32) -> (res: String)
    requires
        chrono_year(year as int),
        1 <= month <= 12,
        1 <= day <= month_length(year as int, month as int),
    ensures
        res@ == ymd_text(year as int, month as int, day as int),
{
    chrono::NaiveDate::from_ymd_opt(year, month, day).unwrap().format("%Y-%m-%d").to_string()
}

/// A day of chrono's range written with `%Y-%m-%d`.
pub open spec fn is_day_text(s: Seq<char>) -> bool {
    exists|y: int, m: int, d: int|
        #[trigger] ymd_text(y, m, d) == s && chrono_year(y) && 1 <= m <= 12 && 1 <= d <= month_length(y, m)
}

/// `chrono::Utc::now()` written with `%Y-%m-%d`: the clock decides which
/// day, written as `NaiveDate` writes it.
#[verifier::external_body]
fn today_text() -> (res: String)
    ensures
        is_day_text(res@),
{
    chrono::Utc::now().format("%Y-%m-%d").to_string()
}

/// `chrono::Utc::now()` written with `%Y-%m-%d %H:%M:%S`; the clock decides.
#[verifier::external_body]
fn now_datetime_text() -> String {
    chrono::Utc::now().format("%Y-%m-%d %H:%M:%S").to_string()
}

/// The current time (UTC) as a note's creation time, `%Y-%m-%d %H:%M:%S`.
pub fn current_datetime_text() -> String {
    now_datetime_text()
}

/// The UTC date of the Unix time `secs` written with `%Y-%m-%d` (chrono).
pub uninterp spec fn utc_date_text(secs: int) -> Seq<char>;

/// `chrono::DateTime::from_timestamp(secs, 0)` written with `%Y-%m-%d`;
/// `secs` lies well inside chrono's range of dates, where the conversion
/// succeeds.
#[verifier::external_body]
fn date_text_of(secs: i64) -> (res: String)
    requires
        -8_000_000_000_000 <= secs <= 8_000_000_000_000,
    ensures
        res@ == utc_date_text(secs as int),
        is_day_text(res@),
{
    chrono::DateTime::from_timestamp(secs, 0).unwrap().format("%Y-%m-%d").to_string()
}

/// `chrono::Utc::now()`'s year and month (`Datelike::year`, `month`): a year
/// of chrono's range and a month from 1 to 12; the clock decides which.
#[verifier::external_body]
fn utc_year_month() -> (res: (i32, u32))
    ensures
        chrono_year(res.0 as int),
        1 <= res.1 <= 12,
{
    let now = chrono::Utc::now();
    (now.year(), now.month())
}

/// The current year and month (UTC).
pub fn current_year_month() -> (res: (i32, u32))
    ensures
        chrono_year(res.0 as int),
        1 <= res.1 <= 12,
{
    utc_year_month()
}

/// `NaiveDateTime::parse_from_str(text, "%Y-%m-%d %H:%M:%S")` read as UTC,
/// in Unix seconds, within the range of chrono's dates.
#[verifier::external_body]
fn parse_datetime_secs(text: &str) -> (res: Option<i64>)
    ensures
        res matches Some(t) ==> datetime_secs(text@) == Some(t as int),
        res matches Some(t) ==> -8_400_000_000_000 <= t <= 8_400_000_000_000,
        res is None ==> datetime_secs(text@) is None,
{
    chrono::NaiveDateTime::parse_from_str(text, "%Y-%m-%d %H:%M:%S").ok().map(|dt| dt.and_utc().timestamp())
}

/// `NaiveDate::parse_from_str(text, "%Y-%m-%d")` formatted `%b %d, %Y`.
#[verifier::external_body]
fn label_of_date(text: &str) -> (res: Option<String>)
    ensures
        res matches Some(l) ==> date_as_label(text@) == Some(l@),
        res is None ==> date_as_label(text@) is None,
{
    chrono::NaiveDate::parse_from_str(text, "%Y-%m-%d").ok().map(|d| d.format("%b %d, %Y").to_string())
}

/// `NaiveDateTime::parse_from_str(text, "%Y-%m-%d %H:%M:%S")` formatted
/// `%b %d, %Y %I:%M %p`.
#[verifier::external_body]
fn label_of_datetime(text: &str) -> (res: Option<String>)
    ensures
        res matches Some(l) ==> datetime_as_label(text@) == Some(l@),
        res is None ==> datetime_as_label(text@) is None,
{
    chrono::NaiveDateTime::parse_from_str(text, "%Y-%m-%d %H:%M:%S").ok().map(
        |d| d.format("%b %d, %Y %I:%M %p").to_string(),
    )
}

// ---------------------------------------------------------------------------
// Calendar
// ---------------------------------------------------------------------------

/// The texts of a sequence of strings.
pub open spec fn texts(v: Seq<String>) -> Seq<Seq<char>> {
    v.map_values(|s: String| s@)
}

/// The text of an optional string slice.
pub open spec fn opt_text(o: Option<&str>) -> Option<Seq<char>> {
    match o {
        Some(s) => Some(s@),
        None => None,
    }
}

/// The cells of each week.
pub open spec fn week_cells(weeks: Seq<Vec<CalendarDay>>) -> Seq<Seq<CalendarDay>> {
    weeks.map_values(|w: Vec<CalendarDay>| w@)
}

/// One cell of the month grid.  Cells before the first and after the last
/// day of the month have day 0, an empty date and every flag false.
#[derive(Debug)]
pub struct CalendarDay {
    pub day: u32,
    pub date: String,
    pub has_memos: bool,
    pub is_today: bool,
    pub is_selected: bool,
    pub is_future: bool,
    pub is_current_month: bool,
}

/// `c` is an empty cell of the grid.
pub open spec fn is_padding(c: CalendarDay) -> bool {
    &&& c.day == 0
    &&& c.date@.len() == 0
    &&& !c.has_memos
    &&& !c.is_today
    &&& !c.is_selected
    &&& !c.is_future
    &&& !c.is_current_month
}

/// `c` is the cell of day `d` of `year-month`, given the dates that have
/// notes, the selected date and today's date.
pub open spec fn is_day_cell(
    c: CalendarDay,
    year: int,
    month: int,
    d: int,
    memo_dates: Seq<Seq<char>>,
    selected: Option<Seq<char>>,
    today: Seq<char>,
) -> bool {
    let date = ymd_text(year, month, d);
    &&& c.day == d
    &&& c.date@ == date
    &&& c.has_memos == memo_dates.contains(date)
    &&& c.is_today == (date == today)
    &&& c.is_selected == (selected == Some(date))
    &&& c.is_future == seq_lt(today, date)
    &&& c.is_current_month
}

/// The grid of `year-month` in weeks of seven cells from Monday: blank cells
/// up to the first day's weekday, then each day in order, then blank cells
/// to fill the last week.
pub open spec fn is_month_grid(
    weeks: Seq<Seq<CalendarDay>>,
    year: int,
    month: int,
    memo_dates: Seq<Seq<char>>,
    selected: Option<Seq<char>>,
    today: Seq<char>,
) -> bool {
    let lead = weekday_from_monday(year, month, 1);
    let n = month_length(year, month);
    &&& weeks.len() == (lead + n + 6) / 7
    &&& forall|w: int| 0 <= w < weeks.len() ==> (#[trigger] weeks[w]).len() == 7
    &&& forall|w: int, j: int|
        0 <= w < weeks.len() && 0 <= j < 7 ==> {
            let p = 7 * w + j;
            if p < lead || p >= lead + n {
                is_padding(#[trigger] weeks[w][j])
            } else {
                is_day_cell(weeks[w][j], year, month, p - lead + 1, memo_dates, selected, today)
            }
        }
}

fn padding_cell() -> (c: CalendarDay)
    ensures
        is_padding(c),
{
    CalendarDay {
        day: 0,
        date: String::new(),
        has_memos: false,
        is_today: false,
        is_selected: false,
        is_future: false,
        is_current_month: false,
    }
}

/// Whether `dates` holds `date`.
fn contains_text(dates: &[String], date: &str) -> (res: bool)
    ensures
        res == dates@.map_values(|s: String| s@).contains(date@),
{
    let d = chars_of(date);
    let mut i: usize = 0;
    while i < dates.len()
        invariant
            i <= dates@.len(),
            d@ == date@,
            forall|k: int| 0 <= k < i ==> dates@[k]@ != date@,
        decreases dates.len() - i,
    {
        let e = chars_of(dates[i].as_str());
        if chars_eq(e.as_slice(), d.as_slice()) {
            assert(dates@.map_values(|s: String| s@)[i as int] == date@);
            return true;
        }
        i = i + 1;
    }
    proof {
        let m = dates@.map_values(|s: String| s@);
        if m.contains(date@) {
            let k = choose|k: int| 0 <= k < m.len() && #[trigger] m[k] == date@;
            assert(dates@[k]@ == date@);
        }
    }
    false
}

/// `weeks` and the unfinished `week` hold the cells `all` in order, seven
/// to a week.
pub open spec fn chunked(weeks: Seq<Vec<CalendarDay>>, week: Seq<CalendarDay>, all: Seq<CalendarDay>) -> bool {
    &&& weeks.len() == all.len() / 7
    &&& week.len() == all.len() % 7
    &&& forall|w: int| 0 <= w < weeks.len() ==> (#[trigger] weeks[w])@.len() == 7
    &&& forall|w: int, j: int|
        0 <= w < weeks.len() && 0 <= j < 7 ==> #[trigger] weeks[w]@[j] == all[7 * w + j]
    &&& forall|q: int| 0 <= q < week.len() ==> #[trigger] week[q] == all[7 * (all.len() / 7) + q]
}

/// Appends a cell, closing the week when it has seven.
fn push_cell(
    weeks: &mut Vec<Vec<CalendarDay>>,
    week: &mut Vec<CalendarDay>,
    c: CalendarDay,
    Ghost(all): Ghost<Seq<CalendarDay>>,
)
    requires
        chunked(old(weeks)@, old(week)@, all),
    ensures
        chunked(final(weeks)@, final(week)@, all.push(c)),
{
    let ghost new_all = all.push(c);
    week.push(c);
    if week.len() == 7 {
        let mut full: Vec<CalendarDay> = Vec::new();
        std::mem::swap(&mut full, week);
        let ghost old_weeks = weeks@;
        weeks.push(full);
        proof {
            assert(new_all.len() / 7 == all.len() / 7 + 1);
            assert(new_all.len() % 7 == 0);
            assert forall|w: int, j: int|
                0 <= w < weeks@.len() && 0 <= j < 7 implies #[trigger] weeks@[w]@[j] == new_all[7
                    * w + j] by {
                if w < old_weeks.len() {
                    assert(weeks@[w] == old_weeks[w]);
                }
            }
        }
    } else {
        proof {
            assert(new_all.len() / 7 == all.len() / 7);
            assert(new_all.len() % 7 == all.len() % 7 + 1);
        }
    }
}

/// The weeks of the month grid of `year-month` given today's date.
pub fn calendar_weeks(
    year: i32,
    month: u32,
    memo_dates: &[String],
    selected_date: Option<&str>,
    today: &str,
) -> (res: Vec<Vec<CalendarDay>>)
    requires
        chrono_year(year as int),
        month == 12 ==> chrono_year(year + 1),
        1 <= month <= 12,
    ensures
        is_month_grid(
            week_cells(res@),
            year as int,
            month as int,
            texts(memo_dates@),
            opt_text(selected_date),
            today@,
        ),
{
    let ghost dates = memo_dates@.map_values(|s: String| s@);
    let ghost sel = match selected_date {
        Some(s) => Some(s@),
        None => None::<Seq<char>>,
    };
    let lead = first_weekday(year, month);
    let n = last_day_of_month(year, month);
    let today_v = chars_of(today);
    let mut weeks: Vec<Vec<CalendarDay>> = Vec::new();
    let mut week: Vec<CalendarDay> = Vec::new();
    let ghost mut all: Seq<CalendarDay> = Seq::empty();
    let mut k: u32 = 0;
    while k < lead
        invariant
            k <= lead < 7,
            all.len() == k,
            chunked(weeks@, week@, all),
            forall|p: int| 0 <= p < k ==> is_padding(#[trigger] all[p]),
        decreases lead - k,
    {
        let c = padding_cell();
        push_cell(&mut weeks, &mut week, c, Ghost(all));
        proof {
            all = all.push(c);
        }
        k = k + 1;
    }
    let mut d: u32 = 1;
    while d <= n
        invariant
            1 <= d <= n + 1,
            n <= 31,
            lead < 7,
            lead as int == weekday_from_monday(year as int, month as int, 1),
            n as int == month_length(year as int, month as int),
            chrono_year(year as int),
            1 <= month <= 12,
            today_v@ == today@,
            dates == memo_dates@.map_values(|s: String| s@),
            sel == (match selected_date {
                Some(s) => Some(s@),
                None => None::<Seq<char>>,
            }),
            all.len() == lead + d - 1,
            chunked(weeks@, week@, all),
            forall|p: int| 0 <= p < lead ==> is_padding(#[trigger] all[p]),
            forall|p: int|
                lead <= p < lead + d - 1 ==> is_day_cell(
                    #[trigger] all[p],
                    year as int,
                    month as int,
                    p - lead + 1,
                    dates,
                    sel,
                    today@,
                ),
        decreases n + 1 - d,
    {
        let date = format_ymd(year, month, d);
        let date_v = chars_of(date.as_str());
        let has_memos = contains_text(memo_dates, date.as_str());
        let is_today = chars_eq(date_v.as_slice(), today_v.as_slice());
        let is_selected = match selected_date {
            Some(s) => {
                let sv = chars_of(s);
                chars_eq(date_v.as_slice(), sv.as_slice())
            },
            None => false,
        };
        let is_future = chars_lt(today_v.as_slice(), date_v.as_slice());
        let cell = CalendarDay {
            day: d,
            date,
            has_memos,
            is_today,
            is_selected,
            is_future,
            is_current_month: true,
        };
        assert(is_day_cell(cell, year as int, month as int, d as int, dates, sel, today@));
        push_cell(&mut weeks, &mut week, cell, Ghost(all));
        proof {
            all = all.push(cell);
        }
        d = d + 1;
    }
    let total = lead + n;
    let target = (total + 6) / 7 * 7;
    let mut count = total;
    while count < target
        invariant
            total == lead + n,
            target == (total + 6) / 7 * 7,
            all.len() == count,
            total <= count <= target,
            chunked(weeks@, week@, all),
            forall|p: int| 0 <= p < lead ==> is_padding(#[trigger] all[p]),
            forall|p: int| total <= p < all.len() ==> is_padding(#[trigger] all[p]),
            forall|p: int|
                lead <= p < total ==> is_day_cell(
                    #[trigger] all[p],
                    year as int,
                    month as int,
                    p - lead + 1,
                    dates,
                    sel,
                    today@,
                ),
        decreases target - count,
    {
        let c = padding_cell();
        push_cell(&mut weeks, &mut week, c, Ghost(all));
        proof {
            all = all.push(c);
        }
        count = count + 1;
    }
    proof {
        assert(all.len() == 7 * ((lead + n + 6) / 7));
        let ws = weeks@.map_values(|w: Vec<CalendarDay>| w@);
        assert forall|w: int, j: int| 0 <= w < ws.len() && 0 <= j < 7 implies {
            let p = 7 * w + j;
            if p < lead || p >= lead + n {
                is_padding(#[trigger] ws[w][j])
            } else {
                is_day_cell(ws[w][j], year as int, month as int, p - lead + 1, dates, sel, today@)
            }
        } by {
            assert(ws[w][j] == all[7 * w + j]);
        }
    }
    weeks
}

/// The month grid of `year-month` for today's date.
pub fn generate_calendar(
    year: i32,
    month: u32,
    memo_dates: &[String],
    selected_date: Option<&str>,
) -> (res: Vec<Vec<CalendarDay>>)
    requires
        chrono_year(year as int),
        month == 12 ==> chrono_year(year + 1),
        1 <= month <= 12,
    ensures
        exists|today: Seq<char>|
            #[trigger] is_month_grid(
                week_cells(res@),
                year as int,
                month as int,
                texts(memo_dates@),
                opt_text(selected_date),
                today,
            ) && is_day_text(today),
{
    let today = today_text();
    calendar_weeks(year, month, memo_dates, selected_date, today.as_str())
}

// ---------------------------------------------------------------------------
// Relative times and day labels
// ---------------------------------------------------------------------------

/// How long ago `datetime` (`%Y-%m-%d %H:%M:%S`, UTC) was at Unix time
/// `now`: seconds ("42s") under a minute, minutes under an hour, hours under
/// a day, "yesterday" under two days, else days; a time in the future counts
/// as 0 seconds.  Text that does not parse is returned as it is.
pub open spec fn relative_text(datetime: Seq<char>, now: int) -> Seq<char> {
    match datetime_secs(datetime) {
        Some(t) => {
            let secs = if now - t > 0 {
                now - t
            } else {
                0
            };
            if secs < 60 {
                dec(secs) + seq!['s']
            } else if secs < 3600 {
                dec(secs / 60) + seq!['m']
            } else if secs < 86400 {
                dec(secs / 3600) + seq!['h']
            } else if secs < 172800 {
                "yesterday"@
            } else {
                dec(secs / 86400) + seq!['d']
            }
        },
        None => datetime,
    }
}

fn with_suffix(n: i64, c: char) -> (res: String)
    ensures
        res@ == dec(n as int) + seq![c],
{
    let mut v = dec_chars(n);
    v.push(c);
    string_of(v.as_slice())
}

/// The elapsed time, counted in its unit, is written with that unit:
/// seconds under a minute, whole minutes under an hour, whole hours under a
/// day, "yesterday" from one day up to two, whole days from two days on; a
/// time in the future counts as no time at all, and text that is not a time
/// stays as it is.
pub open spec fn elapsed_written(datetime: Seq<char>, now: int, res: Seq<char>) -> bool {
    match datetime_secs(datetime) {
        None => res == datetime,
        Some(t) => {
            &&& now - t < 60 ==> res == dec(if now - t > 0 {
                now - t
            } else {
                0
            }) + seq!['s']
            &&& 60 <= now - t < 3600 ==> res == dec((now - t) / 60) + seq!['m']
            &&& 3600 <= now - t < 86400 ==> res == dec((now - t) / 3600) + seq!['h']
            &&& 86400 <= now - t < 172800 ==> res == "yesterday"@
            &&& 172800 <= now - t ==> res == dec((now - t) / 86400) + seq!['d']
        },
    }
}

/// How long ago a time was is written in the largest unit that fits: whole
/// hours from one hour up to a day, "yesterday" only from one day up to
/// two, and so on (see `elapsed_written`).
pub proof fn lemma_relative_text_units(datetime: Seq<char>, now: int)
    ensures
        elapsed_written(datetime, now, relative_text(datetime, now)),
{
}

/// How long ago `datetime` was at Unix time `now`.
pub fn relative_time_at(datetime: &str, now: i64) -> (res: String)
    ensures
        res@ == relative_text(datetime@, now as int),
        elapsed_written(datetime@, now as int, res@),
{
    proof {
        lemma_relative_text_units(datetime@, now as int);
    }
    match parse_datetime_secs(datetime) {
        Some(t) => {
            let diff: i128 = now as i128 - t as i128;
            let secs: i128 = if diff > 0 {
                diff
            } else {
                0
            };
            if secs < 60 {
                with_suffix(secs as i64, 's')
            } else if secs < 3600 {
                with_suffix((secs / 60) as i64, 'm')
            } else if secs < 86400 {
                with_suffix((secs / 3600) as i64, 'h')
            } else if secs < 172800 {
                String::from_str("yesterday")
            } else {
                with_suffix((secs / 86400) as i64, 'd')
            }
        },
        None => String::from_str(datetime),
    }
}

/// How long ago `datetime` (`%Y-%m-%d %H:%M:%S`, UTC) was, e.g. "5m".
pub fn relative_time(datetime: &str) -> (res: String)
    ensures
        exists|now: int|
            -8_400_000_000_000 <= now <= 8_400_000_000_000 && res@ == #[trigger] relative_text(
                datetime@,
                now,
            ) && elapsed_written(datetime@, now, res@),
{
    let now = crate::auth::now_timestamp();
    relative_time_at(datetime, now)
}

/// The heading of a day of notes: "Today", "Yesterday", the date written
/// `%b %d, %Y` (e.g. "Jan 15, 2024"), or the text itself when it is not a
/// `%Y-%m-%d` date.
pub open spec fn date_label_text(date: Seq<char>, today: Seq<char>, yesterday: Seq<char>) -> Seq<char> {
    if date == today {
        "Today"@
    } else if date == yesterday {
        "Yesterday"@
    } else {
        match date_as_label(date) {
            Some(l) => l,
            None => date,
        }
    }
}

/// The heading of the day `date` given today's and yesterday's dates.
pub fn date_label_at(date: &str, today: &str, yesterday: &str) -> (res: String)
    ensures
        res@ == date_label_text(date@, today@, yesterday@),
{
    let d = chars_of(date);
    let t = chars_of(today);
    let y = chars_of(yesterday);
    if chars_eq(d.as_slice(), t.as_slice()) {
        String::from_str("Today")
    } else if chars_eq(d.as_slice(), y.as_slice()) {
        String::from_str("Yesterday")
    } else {
        match label_of_date(date) {
            Some(l) => l,
            None => String::from_str(date),
        }
    }
}

/// `today` and `yesterday` are the UTC day of the clock reading `now` and
/// the day before it, written `%Y-%m-%d`.  (A clock this far out, past year
/// 250000, is not written here: then some day stands for both.)
pub open spec fn days_at_clock(now: int, today: Seq<char>, yesterday: Seq<char>) -> bool {
    if -8_000_000_000_000 + 86400 <= now <= 8_000_000_000_000 {
        &&& today == utc_date_text(now)
        &&& yesterday == utc_date_text(now - 86400)
        &&& is_day_text(today)
    } else {
        is_day_text(today) && yesterday == today
    }
}

/// `today` and `yesterday` are the days of one reading of the clock.
pub open spec fn clock_day_pair(today: Seq<char>, yesterday: Seq<char>) -> bool {
    exists|now: int|
        -8_400_000_000_000 <= now <= 8_400_000_000_000 && #[trigger] days_at_clock(now, today, yesterday)
}

/// Today and yesterday (UTC, `%Y-%m-%d`) from one reading of the clock.
pub fn clock_days() -> (res: (String, String))
    ensures
        clock_day_pair(res.0@, res.1@),
{
    let now = crate::auth::now_timestamp();
    if -8_000_000_000_000 + 86400 <= now && now <= 8_000_000_000_000 {
        let today = date_text_of(now);
        let yesterday = date_text_of(now - 86400);
        assert(days_at_clock(now as int, today@, yesterday@));
        (today, yesterday)
    } else {
        let today = today_text();
        let yesterday = String::from_str(today.as_str());
        assert(days_at_clock(now as int, today@, yesterday@));
        (today, yesterday)
    }
}

/// A day that is neither today nor yesterday is headed with its date written
/// `%b %d, %Y`, or with its own text when it is not a `%Y-%m-%d` date; today
/// is headed "Today" and yesterday "Yesterday".
pub proof fn lemma_day_heading(date: Seq<char>, today: Seq<char>, yesterday: Seq<char>)
    ensures
        date == today ==> date_label_text(date, today, yesterday) == "Today"@,
        date != today && date == yesterday ==> date_label_text(date, today, yesterday) == "Yesterday"@,
        date != today && date != yesterday ==> date_label_text(date, today, yesterday) == match date_as_label(
            date,
        ) {
            Some(l) => l,
            None => date,
        },
{
}

/// The heading of the day `date` given the clock reading `now`: today is
/// the UTC day of `now` and yesterday the UTC day of `now` less a day.  (A
/// clock this far out, past year 250000, is not written here: then some
/// day stands for both.)
pub open spec fn date_label_at_clock(date: Seq<char>, now: int, label: Seq<char>) -> bool {
    if -8_000_000_000_000 + 86400 <= now <= 8_000_000_000_000 {
        &&& is_day_text(utc_date_text(now))
        &&& label == date_label_text(date, utc_date_text(now), utc_date_text(now - 86400))
    } else {
        exists|t: Seq<char>| #[trigger] is_day_text(t) && label == date_label_text(date, t, t)
    }
}

/// The heading of the day `date` (`%Y-%m-%d`) of a group of notes.
pub fn get_date_label(date: &str) -> (res: String)
    ensures
        exists|now: int| -8_400_000_000_000 <= now <= 8_400_000_000_000 && #[trigger] date_label_at_clock(date@, now, res@),
{
    let now = crate::auth::now_timestamp();
    if -8_000_000_000_000 + 86400 <= now && now <= 8_000_000_000_000 {
        let today = date_text_of(now);
        let yesterday = date_text_of(now - 86400);
        let res = date_label_at(date, today.as_str(), yesterday.as_str());
        assert(date_label_at_clock(date@, now as int, res@));
        res
    } else {
        let today = today_text();
        let res = date_label_at(date, today.as_str(), today.as_str());
        assert(is_day_text(today@));
        assert(date_label_at_clock(date@, now as int, res@));
        res
    }
}

/// A note's creation time for the note list, written `%b %d, %Y %I:%M %p`,
/// or the stored text when it does not parse.
pub fn note_list_date(created_at: &str) -> (res: String)
    ensures
        res@ == match datetime_as_label(created_at@) {
            Some(l) => l,
            None => created_at@,
        },
{
    match label_of_datetime(created_at) {
        Some(l) => l,
        None => String::from_str(created_at),
    }
}

} // verus!
