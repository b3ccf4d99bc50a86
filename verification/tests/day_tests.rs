use rusty_flexi::calendar::{Date, TimeOfDay, Weekday};
use rusty_flexi::flexday::{DayStatus, FlexDay};
use rusty_flexi::flexweek::FlexWeek;
use rusty_flexi::settings::Settings;

#[test]
fn flexday_total_minutes_test() {
    let d: FlexDay = Default::default();
    assert_eq!(d.total_minutes(444), 8 * 60 - 30);
}

#[test]
fn flexweek_total_minutes_test() {
    let mut w = FlexWeek { days: vec![Default::default(); 7] };
    assert_eq!(w.total_minutes(444), (8 * 60 - 30) * 7);

    w = Default::default();
    assert_eq!(w.total_minutes(444), (8 * 60 - 30) * 5);
}

#[test]
fn total_minutes_by_status_test() {
    let mut d: FlexDay = Default::default();
    d.start = TimeOfDay::from_hm(9, 0);
    d.end = TimeOfDay::from_hm(17, 0);
    d.pause = 30;
    d.status = DayStatus::Worked;
    assert_eq!(d.total_minutes(444), 450);
    d.status = DayStatus::Half;
    assert_eq!(d.total_minutes(444), 450);
    d.status = DayStatus::Holiday;
    assert_eq!(d.total_minutes(444), 444);
    d.status = DayStatus::Sick;
    assert_eq!(d.total_minutes(444), 444);
    d.status = DayStatus::Weekend;
    assert_eq!(d.total_minutes(444), 0);
}

#[test]
fn negative_total_is_kept_test() {
    // An end before the start is surfaced as a negative total, not
    // rejected.
    let mut d: FlexDay = Default::default();
    d.start = TimeOfDay::from_hm(17, 0);
    d.end = TimeOfDay::from_hm(9, 0);
    d.pause = 30;
    assert_eq!(d.total_minutes(444), -(8 * 60) - 30);
}

#[test]
fn new_day_takes_schedule_test() {
    let settings: Settings = Default::default();
    let d = FlexDay::new(Date::from_ymd(2017, 5, 5), &settings);
    assert_eq!(d.weekday(), Some(Weekday::Fri));
    assert_eq!(d.status, DayStatus::Worked);
    assert_eq!(d.start, TimeOfDay::from_hm(9, 10));
    assert_eq!(d.end, TimeOfDay::from_hm(16, 50));
    assert_eq!(d.pause, 30);

    let sat = FlexDay::new(Date::from_ymd(2017, 5, 6), &settings);
    assert_eq!(sat.status, DayStatus::Weekend);
    assert_eq!(sat.start, TimeOfDay::from_hm(9, 0));
}

#[test]
fn status_glyph_test() {
    let mut d: FlexDay = Default::default();
    assert_eq!(d.status_str(), "N");
    d.status = DayStatus::Holiday;
    assert_eq!(d.status_str(), "H");
    d.status = DayStatus::Half;
    assert_eq!(d.status_str(), "h");
    d.status = DayStatus::Sick;
    assert_eq!(d.status_str(), "S");
    d.status = DayStatus::Weekend;
    assert_eq!(d.status_str(), "W");
}

#[test]
fn holiday_toggle_twice_test() {
    // Booking a holiday and pressing the key again lands back on a worked
    // day.
    let settings: Settings = Default::default();
    let mut d = FlexDay::new(Date::from_ymd(2017, 5, 3), &settings);
    assert_eq!(d.status, DayStatus::Worked);
    d.change_status('h');
    assert_eq!(d.status, DayStatus::Holiday);
    d.change_status('h');
    assert_eq!(d.status, DayStatus::Worked);
}

#[test]
fn sick_toggle_twice_test() {
    let settings: Settings = Default::default();
    let mut d = FlexDay::new(Date::from_ymd(2017, 5, 3), &settings);
    d.change_status('s');
    assert_eq!(d.status, DayStatus::Sick);
    d.change_status('s');
    assert_eq!(d.status, DayStatus::Worked);
}

#[test]
fn toggle_ignored_on_weekend_test() {
    let settings: Settings = Default::default();
    let mut d = FlexDay::new(Date::from_ymd(2017, 5, 6), &settings);
    assert_eq!(d.status, DayStatus::Weekend);
    d.change_status('h');
    assert_eq!(d.status, DayStatus::Weekend);
    d.change_status('s');
    assert_eq!(d.status, DayStatus::Weekend);
}

#[test]
fn week_total_str_test() {
    let w: FlexWeek = Default::default();
    assert_eq!(w.total_str(444), "37:30");
}

#[test]
fn display_line_test() {
    let settings: Settings = Default::default();
    let mut d = FlexDay::new(Date::from_ymd(2017, 5, 3), &settings);
    assert_eq!(
        d.display_line(settings.holiday_duration),
        "N   Wed 03/05   09:10 -> 17:10 - 00:30 = 07:30"
    );
    d.status = DayStatus::Holiday;
    assert_eq!(
        d.display_line(settings.holiday_duration),
        "H   Wed 03/05   --:-- -> --:-- - --:-- = 07:24"
    );
    let sat = FlexDay::new(Date::from_ymd(2017, 5, 6), &settings);
    assert_eq!(
        sat.display_line(settings.holiday_duration),
        "W   Sat 06/05   --:-- -> --:-- - --:-- = --:--"
    );
    let dateless: FlexDay = Default::default();
    assert_eq!(
        dateless.display_line(settings.holiday_duration),
        "N   ??? 00/00   09:00 -> 17:00 - 00:30 = 07:30"
    );
}

#[test]
fn display_line_negative_total_test() {
    let settings: Settings = Default::default();
    let mut d = FlexDay::new(Date::from_ymd(2017, 5, 3), &settings);
    d.start = TimeOfDay::from_hm(17, 0);
    d.end = TimeOfDay::from_hm(9, 0);
    d.pause = 30;
    assert_eq!(
        d.display_line(settings.holiday_duration),
        "N   Wed 03/05   17:00 -> 09:00 - 00:30 = -08:30"
    );
}
