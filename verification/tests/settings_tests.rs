use rusty_flexi::calendar::{Date, TimeOfDay, Weekday};
use rusty_flexi::daysoff::DaysOff;
use rusty_flexi::settings::{
    Settings, SettingsDay, default_holiday_duration, default_holidays_per_year, default_week_goal,
};
use rusty_flexi::settings_editor::{
    SettingsCursor, SettingsKey, apply_settings_keystroke, cursor_step,
};

#[test]
fn get_default_day_settings_for_test() {
    let settings: Settings = Default::default();

    let cur_date = Date::from_ymd(2017, 5, 5);
    let expected = SettingsDay {
        weekday: Weekday::Fri,
        start: TimeOfDay::from_hm(9, 10),
        end: TimeOfDay::from_hm(16, 50),
        pause: 30,
    };
    assert_eq!(settings.get_default_day_settings_for(&cur_date), expected);
}

#[test]
fn weekend_gets_fixed_default_test() {
    let settings: Settings = Default::default();
    let sat = settings.get_default_day_settings_for(&Date::from_ymd(2017, 5, 6));
    assert_eq!(sat.weekday, Weekday::Sat);
    assert_eq!(sat.start, TimeOfDay::from_hm(9, 0));
    assert_eq!(sat.end, TimeOfDay::from_hm(17, 0));
    assert_eq!(sat.pause, 30);
}

#[test]
fn default_settings_test() {
    let s = Settings::default();
    assert_eq!(s.week_goal, default_week_goal());
    assert_eq!(s.week_goal, 2220);
    assert_eq!(s.holiday_duration, default_holiday_duration());
    assert_eq!(s.holiday_duration, 444);
    assert_eq!(s.holidays_per_year, default_holidays_per_year());
    assert_eq!(s.holidays_per_year, 52);
    assert_eq!(s.week_sched.sched.len(), 5);
    assert_eq!(s.week_sched.sched[0].weekday, Weekday::Mon);
    assert_eq!(s.week_sched.sched[4].weekday, Weekday::Fri);
    assert_eq!(s.offsets.entry, 0);
    assert_eq!(s.offsets.exit, 0);
}

#[test]
fn settings_cursor_navigation_test() {
    let c = SettingsCursor { cur_idx: 0, cur_field: 0 };
    // up from the top of a schedule column wraps to the bottom row
    assert_eq!(cursor_step(c, SettingsKey::Up), SettingsCursor { cur_idx: 4, cur_field: 0 });
    // left from the first column wraps to the days-off column
    assert_eq!(cursor_step(c, SettingsKey::Left), SettingsCursor { cur_idx: 0, cur_field: 6 });
    // walking down a schedule column reaches the target row, which pulls
    // the cursor onto the goal fields
    let mut w = SettingsCursor { cur_idx: 4, cur_field: 0 };
    w = cursor_step(w, SettingsKey::Down);
    assert_eq!(w, SettingsCursor { cur_idx: 5, cur_field: 4 });
    // the days-off column cycles over its three rows
    let d = SettingsCursor { cur_idx: 2, cur_field: 6 };
    assert_eq!(cursor_step(d, SettingsKey::Down), SettingsCursor { cur_idx: 0, cur_field: 6 });
}

#[test]
fn settings_keystroke_test() {
    let mut s = Settings::default();
    let mut l = DaysOff::new(2017, &s);
    // first digit into Monday's start hour replaces it
    apply_settings_keystroke(&mut s, &mut l, SettingsCursor { cur_idx: 0, cur_field: 0 }, '8', 0);
    assert_eq!(s.week_sched.sched[0].start.hour, 8);
    // editing the goal's hour half keeps the holiday duration at a fifth
    apply_settings_keystroke(&mut s, &mut l, SettingsCursor { cur_idx: 5, cur_field: 4 }, '5', 0);
    assert_eq!(s.week_goal, 5 * 60);
    assert_eq!(s.holiday_duration, 60);
    // the allotment is edited in whole days and stored in half-days
    apply_settings_keystroke(&mut s, &mut l, SettingsCursor { cur_idx: 0, cur_field: 6 }, '9', 0);
    assert_eq!(s.holidays_per_year, 18);
    // the credit left likewise
    apply_settings_keystroke(&mut s, &mut l, SettingsCursor { cur_idx: 1, cur_field: 6 }, '7', 0);
    assert_eq!(l.holidays_left, 14);
}
