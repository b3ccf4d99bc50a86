use rusty_flexi::calendar::{Date, TimeOfDay, Weekday};
use rusty_flexi::daysoff::DaysOff;
use rusty_flexi::flexday::{DayStatus, FlexDay};
use rusty_flexi::flexmonth::FlexMonth;
use rusty_flexi::navigator::{
    Direction, HourField, adjacent_month_for, change_time, commit_day_edit, first_day_at_weekday,
    last_day_at_weekday, month_in_direction,
};
use rusty_flexi::settings::Settings;

#[test]
fn adjacent_month_decision_test() {
    // A date before the loaded month's number loads the previous month,
    // anything else the next.
    assert_eq!(adjacent_month_for(2017, 5, Date::from_ymd(2017, 4, 30)), (2017, 4));
    assert_eq!(adjacent_month_for(2017, 5, Date::from_ymd(2017, 6, 1)), (2017, 6));
    assert_eq!(adjacent_month_for(2016, 12, Date::from_ymd(2016, 11, 27)), (2016, 11));
    assert_eq!(adjacent_month_for(2017, 1, Date::from_ymd(2017, 2, 1)), (2017, 2));
}

#[test]
fn day_at_weekday_test() {
    let settings: Settings = Default::default();
    let m = FlexMonth::new(2017, 5, &settings);
    assert_eq!(first_day_at_weekday(&m, Weekday::Wed), Some(Date::from_ymd(2017, 5, 3)));
    assert_eq!(last_day_at_weekday(&m, Weekday::Wed), Some(Date::from_ymd(2017, 5, 24)));
}

#[test]
fn change_time_only_on_worked_days_test() {
    let settings: Settings = Default::default();
    let mut d = FlexDay::new(Date::from_ymd(2017, 5, 3), &settings);
    change_time(&mut d, TimeOfDay::from_hm(8, 15), HourField::Begin);
    assert_eq!(d.start, TimeOfDay::from_hm(8, 15));
    change_time(&mut d, TimeOfDay::from_hm(18, 0), HourField::End);
    assert_eq!(d.end, TimeOfDay::from_hm(18, 0));
    d.status = DayStatus::Holiday;
    change_time(&mut d, TimeOfDay::from_hm(6, 0), HourField::Begin);
    assert_eq!(d.start, TimeOfDay::from_hm(8, 15));
}

#[test]
fn commit_day_edit_test() {
    let settings: Settings = Default::default();
    let mut m = FlexMonth::new(2017, 5, &settings);
    let mut l = DaysOff::new(2017, &settings);
    let mut d = m.weeks[1].days[2];
    let old_status = d.status;
    d.status = DayStatus::Holiday;
    let week = commit_day_edit(&mut m, &mut l, old_status, d, settings.holiday_duration);
    assert!(week.is_some());
    assert_eq!(l.holidays_left, 50);
    assert_eq!(m.weeks[1].days[2].status, DayStatus::Holiday);
    // One worked day of 450 minutes became a 444-minute holiday.
    let fresh = FlexMonth::new(2017, 5, &settings);
    assert_eq!(m.balance, fresh.balance - 450 + 444);
}

#[test]
fn month_in_direction_test() {
    assert_eq!(month_in_direction(2017, 1, Direction::Previous), (2016, 12));
    assert_eq!(month_in_direction(2016, 12, Direction::Next), (2017, 1));
    assert_eq!(month_in_direction(2017, 5, Direction::Next), (2017, 6));
}
