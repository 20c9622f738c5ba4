use freya::calendar::{month_view, CalendarDate, DayCell, WeekStart};

fn date(year: i32, month: u32, day: u32) -> CalendarDate {
    CalendarDate::new(year, month, day)
}

#[test]
fn january_2025_from_monday() {
    let v = month_view(date(2025, 1, 15), WeekStart::Monday, Some(date(2025, 1, 20)));
    assert_eq!(v.first_day, date(2025, 1, 1));
    assert_eq!(v.prev_month, date(2024, 12, 1));
    assert_eq!(v.next_month, date(2025, 2, 1));
    assert_eq!(v.days_in_month, 31);
    assert_eq!(v.leading, 2);
    assert_eq!(v.weekday_names, vec!["Mo", "Tu", "We", "Th", "Fr", "Sa", "Su"]);
    assert_eq!(v.title, "January 2025");
    assert_eq!(v.cells.len(), 35);
    assert_eq!(v.cells[0], DayCell { date: date(2024, 12, 30), in_month: false, is_selected: false });
    assert_eq!(v.cells[2], DayCell { date: date(2025, 1, 1), in_month: true, is_selected: false });
    assert_eq!(v.cells[21], DayCell { date: date(2025, 1, 20), in_month: true, is_selected: true });
    assert_eq!(v.cells[32], DayCell { date: date(2025, 1, 31), in_month: true, is_selected: false });
    assert_eq!(v.cells[34], DayCell { date: date(2025, 2, 2), in_month: false, is_selected: false });
    assert_eq!(v.cells.iter().filter(|c| c.is_selected).count(), 1);
}

#[test]
fn january_2025_from_sunday() {
    let v = month_view(date(2025, 1, 1), WeekStart::Sunday, None);
    assert_eq!(v.leading, 3);
    assert_eq!(v.weekday_names, vec!["Su", "Mo", "Tu", "We", "Th", "Fr", "Sa"]);
    assert_eq!(v.cells.len(), 35);
    assert_eq!(v.cells[0].date, date(2024, 12, 29));
    assert_eq!(v.cells[3].date, date(2025, 1, 1));
}

#[test]
fn leap_february() {
    let v = month_view(date(2024, 2, 10), WeekStart::Monday, None);
    assert_eq!(v.days_in_month, 29);
    assert_eq!(v.leading, 3);
    assert_eq!(v.cells.len(), 35);
    assert_eq!(v.cells[31], DayCell { date: date(2024, 2, 29), in_month: true, is_selected: false });
    assert_eq!(v.cells[32].date, date(2024, 3, 1));
    let v = month_view(date(1900, 2, 1), WeekStart::Monday, None);
    assert_eq!(v.days_in_month, 28);
}

#[test]
fn a_selected_day_of_another_month_is_not_marked() {
    let v = month_view(date(2025, 1, 1), WeekStart::Monday, Some(date(2024, 12, 31)));
    assert_eq!(v.cells[1].date, date(2024, 12, 31));
    assert!(!v.cells[1].is_selected);
}

#[test]
fn an_invalid_month_shows_january_1970() {
    let v = month_view(date(2025, 13, 1), WeekStart::Monday, None);
    assert_eq!(v.first_day, date(1970, 1, 1));
    assert_eq!(v.leading, 3);
    assert_eq!(v.prev_month, date(1969, 12, 1));
}

#[test]
fn december_rolls_over() {
    let v = month_view(date(2023, 12, 5), WeekStart::Monday, None);
    assert_eq!(v.next_month, date(2024, 1, 1));
    assert_eq!(v.prev_month, date(2023, 11, 1));
    assert_eq!(v.days_in_month, 31);
    assert_eq!(v.title, "December 2023");
}

#[test]
fn today_is_a_valid_date() {
    let d = CalendarDate::now();
    assert!((1..=12).contains(&d.month));
    assert!((1..=31).contains(&d.day));
}
