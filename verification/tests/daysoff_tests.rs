use rusty_flexi::calendar::Date;
use rusty_flexi::codec::{decode_days_off, encode_days_off};
use rusty_flexi::daysoff::DaysOff;
use rusty_flexi::flexday::{DayStatus, FlexDay};
use rusty_flexi::settings::Settings;

#[test]
fn sick_day_test() {
    let s = Settings::default();
    let mut d1 = DaysOff::new(2017, &s);
    assert_eq!(d1.sick_days_taken(), 0);
    let today = Date::from_ymd(2017, 6, 15);
    d1.add_sick_day(today);
    assert_eq!(d1.sick_days_taken(), 1);

    // adding the same day is not authorised
    d1.add_sick_day(today);
    assert_eq!(d1.sick_days_taken(), 1);

    // a reload through the flat code keeps the journal
    let coded = encode_days_off(&d1);
    let d2 = decode_days_off(&coded).unwrap();
    assert_eq!(d2.sick_days_taken(), 1);

    // sick days survive into a new year's ledger
    let mut d2 = DaysOff::new(2018, &s);
    d2.sick_days = d1.sick_days.clone();
    assert_eq!(d2.sick_days_taken(), 1);

    // a day more than twelve months old is dropped by the rolling window
    let limit = Date::from_ymd(2016, 6, 1).pred();
    d2.add_sick_day(limit);
    d2.roll_sick_days(today);
    assert_eq!(d2.sick_days_taken(), 1);

    d2.remove_sick_day(today);
    assert_eq!(d2.sick_days_taken(), 0);
    d2.remove_sick_day(today);
    assert_eq!(d2.sick_days_taken(), 0);
}

#[test]
fn new_ledger_test() {
    let s = Settings::default();
    let d = DaysOff::new(2017, &s);
    assert_eq!(d.year, 2017);
    assert_eq!(d.sick_days_taken(), 0);
    // 26 whole days, held in half-days
    assert_eq!(d.holidays_left, 52);
}

fn worked_day(date: Date, status: DayStatus) -> FlexDay {
    let s = Settings::default();
    let mut d = FlexDay::new(date, &s);
    d.status = status;
    d
}

#[test]
fn ledger_transition_table_test() {
    let s = Settings::default();
    let date = Date::from_ymd(2017, 5, 3);
    // Worked -> Holiday debits a whole day (two halves).
    let mut l = DaysOff::new(2017, &s);
    l.update_days_off(DayStatus::Worked, worked_day(date, DayStatus::Holiday));
    assert_eq!(l.holidays_left, 50);
    // Holiday -> Half repays half a day.
    l.update_days_off(DayStatus::Holiday, worked_day(date, DayStatus::Half));
    assert_eq!(l.holidays_left, 51);
    // Half -> Sick repays the half and records the sick day.
    l.update_days_off(DayStatus::Half, worked_day(date, DayStatus::Sick));
    assert_eq!(l.holidays_left, 52);
    assert_eq!(l.sick_days_taken(), 1);
    // Sick -> Worked clears the sick day and leaves the credit alone.
    l.update_days_off(DayStatus::Sick, worked_day(date, DayStatus::Worked));
    assert_eq!(l.holidays_left, 52);
    assert_eq!(l.sick_days_taken(), 0);
}

#[test]
fn sick_then_back_leaves_ledger_unchanged_test() {
    // Worked -> Sick then Sick -> Worked on the same date: credit
    // untouched, journal empty.
    let s = Settings::default();
    let date = Date::from_ymd(2017, 5, 10);
    let mut l = DaysOff::new(2017, &s);
    l.update_days_off(DayStatus::Worked, worked_day(date, DayStatus::Sick));
    assert_eq!(l.holidays_left, 52);
    assert_eq!(l.sick_days_taken(), 1);
    l.update_days_off(DayStatus::Sick, worked_day(date, DayStatus::Worked));
    assert_eq!(l.holidays_left, 52);
    assert_eq!(l.sick_days_taken(), 0);
}

#[test]
fn transition_cycle_conserves_ledger_test() {
    // A chain of transitions ending back on the starting status restores
    // both the credit and the journal.
    let s = Settings::default();
    let date = Date::from_ymd(2017, 5, 10);
    let mut l = DaysOff::new(2017, &s);
    let path = [
        DayStatus::Worked,
        DayStatus::Holiday,
        DayStatus::Sick,
        DayStatus::Half,
        DayStatus::Worked,
    ];
    for k in 1..path.len() {
        l.update_days_off(path[k - 1], worked_day(date, path[k]));
    }
    assert_eq!(l.holidays_left, 52);
    assert_eq!(l.sick_days_taken(), 0);
}

#[test]
fn weekend_transitions_change_nothing_test() {
    let s = Settings::default();
    let date = Date::from_ymd(2017, 5, 6);
    let mut l = DaysOff::new(2017, &s);
    l.update_days_off(DayStatus::Weekend, worked_day(date, DayStatus::Holiday));
    assert_eq!(l.holidays_left, 52);
    assert_eq!(l.sick_days_taken(), 0);
    l.update_days_off(DayStatus::Worked, worked_day(date, DayStatus::Weekend));
    assert_eq!(l.holidays_left, 52);
}

#[test]
fn journal_stays_sorted_test() {
    let s = Settings::default();
    let mut l = DaysOff::new(2017, &s);
    l.add_sick_day(Date::from_ymd(2017, 5, 10));
    l.add_sick_day(Date::from_ymd(2017, 2, 1));
    l.add_sick_day(Date::from_ymd(2017, 8, 20));
    l.add_sick_day(Date::from_ymd(2017, 5, 10));
    assert_eq!(l.sick_days_taken(), 3);
    assert_eq!(l.sick_days[0], Date::from_ymd(2017, 2, 1));
    assert_eq!(l.sick_days[1], Date::from_ymd(2017, 5, 10));
    assert_eq!(l.sick_days[2], Date::from_ymd(2017, 8, 20));
}

#[test]
fn rolling_window_test() {
    let s = Settings::default();
    let mut l = DaysOff::new(2017, &s);
    let today = Date::from_ymd(2017, 6, 15);
    l.add_sick_day(Date::from_ymd(2016, 5, 31));
    l.add_sick_day(Date::from_ymd(2016, 6, 1));
    l.add_sick_day(Date::from_ymd(2016, 6, 2));
    l.add_sick_day(Date::from_ymd(2017, 3, 1));
    l.roll_sick_days(today);
    // The cutoff is 2016-06-01: it stays itself, only older days drop.
    assert_eq!(l.sick_days_taken(), 3);
    assert_eq!(l.sick_days[0], Date::from_ymd(2016, 6, 1));
    assert_eq!(l.sick_days[1], Date::from_ymd(2016, 6, 2));
    assert_eq!(l.sick_days[2], Date::from_ymd(2017, 3, 1));
}
