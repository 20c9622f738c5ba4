//! The month grid of the calendar: which dates a month view shows, where, and which of them
//! belong to the month and to the selection.
//!
//! Dates follow the proleptic Gregorian calendar over the years chrono's `NaiveDate` covers.

use vstd::prelude::*;

use chrono::{Datelike, Duration, Local, Months, NaiveDate};

verus! {

/// A calendar date.
#[derive(Clone, Copy, Debug, PartialEq, Eq, Structural)]
pub struct CalendarDate {
    pub year: i32,
    pub month: u32,
    pub day: u32,
}

/// The day a week starts on.
#[derive(Clone, Copy, Debug, PartialEq, Eq, Structural)]
pub enum WeekStart {
    Sunday,
    Monday,
}

/// The first year a `NaiveDate` holds.
pub open spec fn min_year() -> int {
    -262143
}

/// The last year a `NaiveDate` holds.
pub open spec fn max_year() -> int {
    262142
}

/// Leap years: every fourth year, but not every hundredth, yet every four hundredth.
pub open spec fn is_leap_year(y: int) -> bool {
    (y % 4 == 0 && y % 100 != 0) || y % 400 == 0
}

/// The number of days of month `m` of year `y`.
pub open spec fn days_in_month(y: int, m: int) -> int {
    if m == 2 {
        if is_leap_year(y) {
            29
        } else {
            28
        }
    } else if m == 4 || m == 6 || m == 9 || m == 11 {
        30
    } else {
        31
    }
}

/// A date that exists, in a year a `NaiveDate` holds.
pub open spec fn is_valid_date(d: CalendarDate) -> bool {
    &&& min_year() <= d.year <= max_year()
    &&& 1 <= d.month <= 12
    &&& 1 <= d.day <= days_in_month(d.year as int, d.month as int)
}

/// Days from 1970-01-01 to the first day of month `m` of year `y` (negative before it).
pub open spec fn days_before(y: int, m: int) -> int {
    let yy = if m <= 2 {
        y - 1
    } else {
        y
    };
    365 * yy + yy / 4 - yy / 100 + yy / 400 + (153 * ((m + 9) % 12) + 2) / 5 - 719468
}

/// Days from 1970-01-01 to the date (negative before it).
pub open spec fn day_number(d: CalendarDate) -> int {
    days_before(d.year as int, d.month as int) + d.day - 1
}

/// The first date a `NaiveDate` holds.
pub open spec fn first_date() -> CalendarDate {
    CalendarDate { year: min_year() as i32, month: 1, day: 1 }
}

/// The last date a `NaiveDate` holds.
pub open spec fn last_date() -> CalendarDate {
    CalendarDate { year: max_year() as i32, month: 12, day: 31 }
}

/// Some date a `NaiveDate` holds has day number `n`.
pub open spec fn day_in_range(n: int) -> bool {
    day_number(first_date()) <= n <= day_number(last_date())
}

/// The date `k` months after `d` (before it, for negative `k`), on the same day or the last
/// day of the new month if it is shorter; none when the year is out of range.
pub open spec fn month_shift(d: CalendarDate, k: int) -> Option<CalendarDate> {
    let total = d.year * 12 + d.month - 1 + k;
    let y = total / 12;
    let m = total % 12 + 1;
    let dim = days_in_month(y, m);
    if min_year() <= y <= max_year() {
        Some(
            CalendarDate {
                year: y as i32,
                month: m as u32,
                day: if d.day <= dim {
                    d.day
                } else {
                    dim as u32
                },
            },
        )
    } else {
        None
    }
}

/// The day before `d`; none before the first date a `NaiveDate` holds.
pub open spec fn previous_date(d: CalendarDate) -> Option<CalendarDate> {
    if d.day > 1 {
        Some(CalendarDate { day: (d.day - 1) as u32, ..d })
    } else if d.month > 1 {
        Some(
            CalendarDate {
                year: d.year,
                month: (d.month - 1) as u32,
                day: days_in_month(d.year as int, d.month - 1) as u32,
            },
        )
    } else if d.year > min_year() {
        Some(CalendarDate { year: (d.year - 1) as i32, month: 12, day: 31 })
    } else {
        None
    }
}

/// Days since the last Monday (Sunday when `from_sunday`); 1970-01-01 was a Thursday.
pub open spec fn weekday_offset(d: CalendarDate, from_sunday: bool) -> int {
    if from_sunday {
        (day_number(d) + 4) % 7
    } else {
        (day_number(d) + 3) % 7
    }
}

/// The month and year as a title, in English: "January 2025".
pub uninterp spec fn month_year_title(year: int, month: int) -> Seq<char>;

/// `NaiveDate::from_ymd_opt`: the date, when it exists in the years a `NaiveDate` holds.
#[verifier::external_body]
fn date_from_ymd(year: i32, month: u32, day: u32) -> (r: Option<CalendarDate>)
    ensures
        r is Some <==> is_valid_date(CalendarDate { year, month, day }),
        r matches Some(d) ==> d == (CalendarDate { year, month, day }),
{
    NaiveDate::from_ymd_opt(year, month, day)
        .map(|n| CalendarDate { year: n.year(), month: n.month(), day: n.day() })
}

/// `NaiveDate::checked_add_months(Months::new(1))`: the same day a month later (the month's
/// last day if it is shorter), when that is in range.
#[verifier::external_body]
fn month_after(d: CalendarDate) -> (r: Option<CalendarDate>)
    requires
        is_valid_date(d),
    ensures
        r == month_shift(d, 1),
{
    NaiveDate::from_ymd_opt(d.year, d.month, d.day)
        .unwrap()
        .checked_add_months(Months::new(1))
        .map(|n| CalendarDate { year: n.year(), month: n.month(), day: n.day() })
}

/// `NaiveDate::checked_sub_months(Months::new(1))`: the same day a month earlier (the month's
/// last day if it is shorter), when that is in range.
#[verifier::external_body]
fn month_before(d: CalendarDate) -> (r: Option<CalendarDate>)
    requires
        is_valid_date(d),
    ensures
        r == month_shift(d, -1),
{
    NaiveDate::from_ymd_opt(d.year, d.month, d.day)
        .unwrap()
        .checked_sub_months(Months::new(1))
        .map(|n| CalendarDate { year: n.year(), month: n.month(), day: n.day() })
}

/// `NaiveDate::pred_opt`: the day before, when that is in range.
#[verifier::external_body]
fn day_before(d: CalendarDate) -> (r: Option<CalendarDate>)
    requires
        is_valid_date(d),
    ensures
        r == previous_date(d),
{
    NaiveDate::from_ymd_opt(d.year, d.month, d.day)
        .unwrap()
        .pred_opt()
        .map(|n| CalendarDate { year: n.year(), month: n.month(), day: n.day() })
}

/// `NaiveDate::checked_add_signed(Duration::days(days))`: the date `days` days later (earlier
/// for negative `days`), when that is in range.
#[verifier::external_body]
fn add_days(d: CalendarDate, days: i64) -> (r: Option<CalendarDate>)
    requires
        is_valid_date(d),
        -1_000_000 <= days <= 1_000_000,
    ensures
        r is Some <==> day_in_range(day_number(d) + days),
        r matches Some(e) ==> is_valid_date(e) && day_number(e) == day_number(d) + days,
{
    NaiveDate::from_ymd_opt(d.year, d.month, d.day)
        .unwrap()
        .checked_add_signed(Duration::days(days))
        .map(|n| CalendarDate { year: n.year(), month: n.month(), day: n.day() })
}

/// `Weekday::num_days_from_sunday` of the date's weekday.
#[verifier::external_body]
fn days_from_sunday(d: CalendarDate) -> (r: u32)
    requires
        is_valid_date(d),
    ensures
        r == weekday_offset(d, true),
{
    NaiveDate::from_ymd_opt(d.year, d.month, d.day)
        .unwrap()
        .weekday().num_days_from_sunday()
}

/// `Weekday::num_days_from_monday` of the date's weekday.
#[verifier::external_body]
fn days_from_monday(d: CalendarDate) -> (r: u32)
    requires
        is_valid_date(d),
    ensures
        r == weekday_offset(d, false),
{
    NaiveDate::from_ymd_opt(d.year, d.month, d.day)
        .unwrap()
        .weekday().num_days_from_monday()
}

/// `NaiveDate::format("%B %Y")`: the month's English name and the year.
#[verifier::external_body]
fn month_title(d: CalendarDate) -> (r: String)
    requires
        is_valid_date(d),
    ensures
        r@ == month_year_title(d.year as int, d.month as int),
{
    NaiveDate::from_ymd_opt(d.year, d.month, d.day)
        .unwrap()
        .format("%B %Y").to_string()
}

/// `Local::now().date_naive()`: today, in the local time zone.
#[verifier::external_body]
fn local_today() -> (r: CalendarDate)
    ensures
        is_valid_date(r),
{
    let n = Local::now().date_naive();
    CalendarDate { year: n.year(), month: n.month(), day: n.day() }
}

impl CalendarDate {
    /// The date with these fields, as given.
    pub fn new(year: i32, month: u32, day: u32) -> (r: Self)
        ensures
            r == (CalendarDate { year, month, day }),
    {
        CalendarDate { year, month, day }
    }

    /// Today's date in the local time zone.
    pub fn now() -> (r: Self)
        ensures
            is_valid_date(r),
    {
        local_today()
    }
}

/// One day of a month view.
#[derive(Clone, Copy, Debug, PartialEq, Eq, Structural)]
pub struct DayCell {
    pub date: CalendarDate,
    pub in_month: bool,
    pub is_selected: bool,
}

/// What the calendar shows for a month.
pub struct MonthView {
    /// The first day of the month shown.
    pub first_day: CalendarDate,
    /// Where the previous-month button leads.
    pub prev_month: CalendarDate,
    /// Where the next-month button leads.
    pub next_month: CalendarDate,
    pub days_in_month: u32,
    /// How many days of the previous month fill the first row.
    pub leading: u32,
    /// The column headers.
    pub weekday_names: Vec<&'static str>,
    pub title: String,
    /// The day cells, row after row, seven to a row.
    pub cells: Vec<DayCell>,
}

/// The first day of the month a view date is in; 1970-01-01 when that month does not exist.
pub open spec fn view_first_day(view: CalendarDate) -> CalendarDate {
    let first = CalendarDate { year: view.year, month: view.month, day: 1 };
    if is_valid_date(first) {
        first
    } else {
        CalendarDate { year: 1970, month: 1, day: 1 }
    }
}

/// The date, or `fallback` when there is none.
pub open spec fn date_or(d: Option<CalendarDate>, fallback: CalendarDate) -> CalendarDate {
    match d {
        Some(x) => x,
        None => fallback,
    }
}

/// The column headers, starting from the week's first day.
pub open spec fn weekday_names_of(start: WeekStart) -> Seq<Seq<char>> {
    match start {
        WeekStart::Sunday => seq!["Su"@, "Mo"@, "Tu"@, "We"@, "Th"@, "Fr"@, "Sa"@],
        WeekStart::Monday => seq!["Mo"@, "Tu"@, "We"@, "Th"@, "Fr"@, "Sa"@, "Su"@],
    }
}

/// Cell `i` of a month view whose first day is `first` and whose first row starts `leading`
/// days before it: the date `i - leading` days after `first` (`first` itself when that date
/// is out of range), whether it is in `first`'s month, and whether it is the selected date.
pub open spec fn day_cell_ok(
    c: DayCell,
    i: int,
    first: CalendarDate,
    leading: int,
    selected: Option<CalendarDate>,
) -> bool {
    let n = day_number(first) + i - leading;
    &&& day_in_range(n) ==> is_valid_date(c.date) && day_number(c.date) == n
    &&& !day_in_range(n) ==> c.date == first
    &&& c.in_month == (c.date.month == first.month)
    &&& c.is_selected == (c.in_month && selected == Some(c.date))
}

/// A shifted month is a valid date.
proof fn lemma_month_shift_valid(d: CalendarDate, k: int)
    requires
        is_valid_date(d),
    ensures
        month_shift(d, k) matches Some(e) ==> is_valid_date(e),
{
}

/// The day before a valid date is valid.
proof fn lemma_previous_date_valid(d: CalendarDate)
    requires
        is_valid_date(d),
    ensures
        previous_date(d) matches Some(e) ==> is_valid_date(e),
{
}

/// `v` is the month view of the month holding `view`, with weeks starting on `start` and
/// `selected` marked.
pub open spec fn is_month_view(v: MonthView, view: CalendarDate, start: WeekStart, selected: Option<CalendarDate>) -> bool {
    let first = view_first_day(view);
    &&& v.first_day == first
    &&& v.prev_month == date_or(month_shift(first, -1), first)
    &&& v.next_month == date_or(month_shift(first, 1), first)
    &&& v.days_in_month == match previous_date(v.next_month) {
        Some(p) => p.day,
        None => 30,
    }
    &&& v.leading == weekday_offset(first, start == WeekStart::Sunday)
    &&& v.weekday_names@.len() == 7
    &&& forall|i: int| 0 <= i < 7 ==> #[trigger] v.weekday_names@[i]@ == weekday_names_of(start)[i]
    &&& v.title@ == month_year_title(first.year as int, first.month as int)
    &&& v.cells@.len() == (v.leading + v.days_in_month + 6) / 7 * 7
    &&& forall|i: int|
        0 <= i < v.cells@.len() ==> day_cell_ok(#[trigger] v.cells@[i], i, first, v.leading as int, selected)
}

/// The month view of the month holding `view_date`, with weeks starting on `week_start`
/// and `selected` marked.
pub fn month_view(view_date: CalendarDate, week_start: WeekStart, selected: Option<CalendarDate>) -> (r:
    MonthView)
    ensures
        is_month_view(r, view_date, week_start, selected),
{
    let first_day = match date_from_ymd(view_date.year, view_date.month, 1) {
        Some(d) => d,
        None => CalendarDate::new(1970, 1, 1),
    };
    proof {
        lemma_month_shift_valid(first_day, -1);
        lemma_month_shift_valid(first_day, 1);
    }
    let prev_month = match month_before(first_day) {
        Some(d) => d,
        None => first_day,
    };
    let next_month = match month_after(first_day) {
        Some(d) => d,
        None => first_day,
    };
    proof {
        lemma_previous_date_valid(next_month);
    }
    let days_in_month = match day_before(next_month) {
        Some(d) => d.day,
        None => 30,
    };
    let (leading, weekday_names) = match week_start {
        WeekStart::Sunday => (
            days_from_sunday(first_day),
            vec!["Su", "Mo", "Tu", "We", "Th", "Fr", "Sa"],
        ),
        WeekStart::Monday => (
            days_from_monday(first_day),
            vec!["Mo", "Tu", "We", "Th", "Fr", "Sa", "Su"],
        ),
    };
    proof {
        reveal_strlit("Su");
        reveal_strlit("Mo");
        reveal_strlit("Tu");
        reveal_strlit("We");
        reveal_strlit("Th");
        reveal_strlit("Fr");
        reveal_strlit("Sa");
    }
    assert(days_in_month <= 31);
    let total_cells = (leading + days_in_month + 6) / 7 * 7;
    assert(total_cells <= 42);
    let title = month_title(first_day);
    let mut cells: Vec<DayCell> = Vec::new();
    let mut i: u32 = 0;
    while i < total_cells
        invariant
            is_valid_date(first_day),
            leading < 7,
            i <= total_cells <= 42,
            cells@.len() == i,
            forall|j: int|
                0 <= j < i ==> day_cell_ok(#[trigger] cells@[j], j, first_day, leading as int, selected),
        decreases total_cells - i,
    {
        let date = match add_days(first_day, i as i64 - leading as i64) {
            Some(d) => d,
            None => first_day,
        };
        let in_month = date.month == first_day.month;
        let is_selected = in_month && match selected {
            Some(s) => s == date,
            None => false,
        };
        cells.push(DayCell { date, in_month, is_selected });
        i = i + 1;
    }
    MonthView {
        first_day,
        prev_month,
        next_month,
        days_in_month,
        leading,
        weekday_names,
        title,
        cells,
    }
}

/// A month starts right after the previous month of the same year ends.
proof fn lemma_next_month_start(y: int, m: int)
    requires
        1 <= m <= 11,
    ensures
        days_before(y, m + 1) == days_before(y, m) + days_in_month(y, m),
{
    if m == 2 {
        assert(y / 4 - (y - 1) / 4 == if y % 4 == 0 { 1int } else { 0int });
        assert(y / 100 - (y - 1) / 100 == if y % 100 == 0 { 1int } else { 0int });
        assert(y / 400 - (y - 1) / 400 == if y % 400 == 0 { 1int } else { 0int });
        assert(y % 100 == 0 ==> y % 4 == 0);
        assert(y % 400 == 0 ==> y % 100 == 0);
    }
}

/// A year starts right after the previous year's December ends.
proof fn lemma_next_year_start(y: int)
    ensures
        days_before(y + 1, 1) == days_before(y, 12) + 31,
{
}

/// Later months of a year start later, each at least a month after an earlier one.
proof fn lemma_month_starts_ordered(y: int, m1: int, m2: int)
    requires
        1 <= m1 < m2 <= 12,
    ensures
        days_before(y, m1) + days_in_month(y, m1) <= days_before(y, m2),
    decreases m2 - m1,
{
    lemma_next_month_start(y, m1);
    if m1 + 1 < m2 {
        lemma_month_starts_ordered(y, m1 + 1, m2);
    }
}

/// Later years start after an earlier year's December ends.
proof fn lemma_year_starts_ordered(y1: int, y2: int)
    requires
        y1 < y2,
    ensures
        days_before(y1, 12) + 31 <= days_before(y2, 1),
    decreases y2 - y1,
{
    lemma_next_year_start(y1);
    if y1 + 1 < y2 {
        lemma_year_starts_ordered(y1 + 1, y2);
        lemma_month_starts_ordered(y1 + 1, 1, 12);
    }
}

/// A year has at least 365 days, and its December starts 334 days or more after its start.
proof fn lemma_year_length(y: int)
    ensures
        days_before(y, 1) + 334 <= days_before(y, 12),
        days_before(y, 1) + 365 <= days_before(y + 1, 1),
{
    lemma_next_month_start(y, 1);
    lemma_next_month_start(y, 2);
    lemma_next_month_start(y, 3);
    lemma_next_month_start(y, 4);
    lemma_next_month_start(y, 5);
    lemma_next_month_start(y, 6);
    lemma_next_month_start(y, 7);
    lemma_next_month_start(y, 8);
    lemma_next_month_start(y, 9);
    lemma_next_month_start(y, 10);
    lemma_next_month_start(y, 11);
    lemma_next_year_start(y);
}

/// Years start at least 365 days apart.
proof fn lemma_year_span(y1: int, y2: int)
    requires
        y1 <= y2,
    ensures
        days_before(y1, 1) + 365 * (y2 - y1) <= days_before(y2, 1),
    decreases y2 - y1,
{
    if y1 < y2 {
        lemma_year_length(y1);
        lemma_year_span(y1 + 1, y2);
    }
}

/// A date comes before every date of a later month.
proof fn lemma_day_number_before(a: CalendarDate, b: CalendarDate)
    requires
        is_valid_date(a),
        is_valid_date(b),
        a.year < b.year || (a.year == b.year && a.month < b.month),
    ensures
        day_number(a) < day_number(b),
{
    if a.year < b.year {
        if a.month < 12 {
            lemma_month_starts_ordered(a.year as int, a.month as int, 12);
        }
        lemma_year_starts_ordered(a.year as int, b.year as int);
        if b.month > 1 {
            lemma_month_starts_ordered(b.year as int, 1, b.month as int);
        }
    } else {
        lemma_month_starts_ordered(a.year as int, a.month as int, b.month as int);
    }
}

/// Different valid dates have different day numbers.
pub proof fn lemma_day_number_injective(a: CalendarDate, b: CalendarDate)
    requires
        is_valid_date(a),
        is_valid_date(b),
        day_number(a) == day_number(b),
    ensures
        a == b,
{
    if a.year < b.year || (a.year == b.year && a.month < b.month) {
        lemma_day_number_before(a, b);
    } else if b.year < a.year || (a.year == b.year && b.month < a.month) {
        lemma_day_number_before(b, a);
    }
}

/// The valid date with a day number in the month `(y, m)`.
proof fn lemma_date_in_month(c: CalendarDate, y: int, m: int)
    requires
        is_valid_date(c),
        min_year() <= y <= max_year(),
        1 <= m <= 12,
        days_before(y, m) <= day_number(c) < days_before(y, m) + days_in_month(y, m),
    ensures
        c.year == y,
        c.month == m,
        c.day == day_number(c) - days_before(y, m) + 1,
{
    let d = CalendarDate { year: y as i32, month: m as u32, day: (day_number(c) - days_before(y, m) + 1) as u32 };
    assert(day_number(d) == day_number(c));
    lemma_day_number_injective(c, d);
}

/// In the month view of a month whose year is neither the first nor the last a date can have,
/// the days of the month fill the cells from `leading` on, one per cell and in order, and only
/// they are marked as in the month: the cells before them show days of the previous month and
/// the cells after them days of the next one.
pub proof fn law_month_view_lays_out_the_month(
    v: MonthView,
    view: CalendarDate,
    start: WeekStart,
    selected: Option<CalendarDate>,
)
    requires
        is_month_view(v, view, start, selected),
        is_valid_date(CalendarDate { day: 1, ..view }),
        min_year() < view.year < max_year(),
    ensures
        v.days_in_month == days_in_month(view.year as int, view.month as int),
        forall|d: int|
            1 <= d <= v.days_in_month && v.leading + d - 1 < v.cells@.len() ==> {
                let c = #[trigger] v.cells@[v.leading + d - 1];
                &&& c.date == (CalendarDate { year: view.year, month: view.month, day: d as u32 })
                &&& c.in_month
            },
        forall|i: int|
            0 <= i < v.cells@.len() && !(v.leading <= i < v.leading + v.days_in_month)
                ==> !(#[trigger] v.cells@[i]).in_month,
{
    let y = view.year as int;
    let m = view.month as int;
    let first = view_first_day(view);
    assert(first == CalendarDate { day: 1, ..view });
    let dim = days_in_month(y, m);
    assert(v.days_in_month == dim) by {
        if m < 12 {
            assert((y * 12 + m - 1 + 1) / 12 == y);
            assert((y * 12 + m - 1 + 1) % 12 + 1 == m + 1);
        } else {
            assert((y * 12 + m - 1 + 1) / 12 == y + 1);
            assert((y * 12 + m - 1 + 1) % 12 + 1 == 1);
        }
    }
    let leading = v.leading as int;
    assert(leading < 7);
    assert(v.cells@.len() <= leading + dim + 6);
    // every cell's day number is in range
    assert(day_number(first_date()) + 300 < day_number(first)) by {
        lemma_year_span(min_year(), y);
        if m > 1 {
            lemma_month_starts_ordered(y, 1, m);
        }
    }
    assert(day_number(first) + 300 < day_number(last_date())) by {
        lemma_year_span(y, max_year());
        lemma_year_length(max_year());
        lemma_next_month_start(max_year(), 11);
        if m < 12 {
            lemma_month_starts_ordered(y, m, 12);
        }
        lemma_year_length(y);
    }
    assert forall|d: int|
        1 <= d <= v.days_in_month && v.leading + d - 1 < v.cells@.len() implies {
            let c = #[trigger] v.cells@[v.leading + d - 1];
            &&& c.date == (CalendarDate { year: view.year, month: view.month, day: d as u32 })
            &&& c.in_month
        } by {
        let i = leading + d - 1;
        let c = v.cells@[i];
        assert(day_cell_ok(c, i, first, leading, selected));
        lemma_date_in_month(c.date, y, m);
    }
    assert forall|i: int|
        0 <= i < v.cells@.len() && !(v.leading <= i < v.leading + v.days_in_month)
            implies !(#[trigger] v.cells@[i]).in_month by {
        let c = v.cells@[i];
        assert(day_cell_ok(c, i, first, leading, selected));
        if i < leading {
            // a day of the previous month
            let (py, pm) = if m == 1 { (y - 1, 12int) } else { (y, m - 1) };
            if m == 1 {
                lemma_next_year_start(y - 1);
            } else {
                lemma_next_month_start(y, m - 1);
            }
            lemma_date_in_month(c.date, py, pm);
        } else {
            // a day of the next month
            let (ny, nm) = if m == 12 { (y + 1, 1int) } else { (y, m + 1) };
            if m == 12 {
                lemma_next_year_start(y);
            } else {
                lemma_next_month_start(y, m);
            }
            lemma_date_in_month(c.date, ny, nm);
        }
    }
}

} // verus!
