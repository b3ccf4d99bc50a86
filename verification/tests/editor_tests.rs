use rusty_flexi::calendar::{Date, TimeOfDay};
use rusty_flexi::editor::{
    DayEditor, EditKey, Field, TimeField, initial_edit_field, process_digit_input,
    process_digit_input_for_duration, process_digit_input_for_number, process_digit_input_for_time,
    process_key_up_down,
};
use rusty_flexi::flexday::{DayStatus, FlexDay};
use rusty_flexi::settings::Settings;

#[test]
fn hour_second_digit_rejected_test() {
    // Starting from hour 09: pressing '2' sets the hour to 2, pressing '5'
    // is rejected since 25 is past 23, so the hour stays 2.
    let t = TimeOfDay::from_hm(9, 30);
    let t = process_digit_input_for_time(t, TimeField::Hour, '2', 0);
    assert_eq!(t.hour, 2);
    let t = process_digit_input_for_time(t, TimeField::Hour, '5', 1);
    assert_eq!(t.hour, 2);
    let t = process_digit_input_for_time(t, TimeField::Hour, '3', 1);
    assert_eq!(t.hour, 23);
}

#[test]
fn minute_second_digit_test() {
    let t = TimeOfDay::from_hm(9, 30);
    let t = process_digit_input_for_time(t, TimeField::Minute, '5', 0);
    assert_eq!(t.minute, 5);
    let t = process_digit_input_for_time(t, TimeField::Minute, '9', 1);
    assert_eq!(t.minute, 59);
    // A leading digit above 5 takes no second digit.
    let t = process_digit_input_for_time(t, TimeField::Minute, '7', 0);
    assert_eq!(t.minute, 7);
    let t = process_digit_input_for_time(t, TimeField::Minute, '0', 1);
    assert_eq!(t.minute, 7);
}

#[test]
fn clear_keystroke_test() {
    let t = TimeOfDay::from_hm(17, 45);
    // On the first position, clear drops the low digit.
    let t1 = process_digit_input_for_time(t, TimeField::Hour, '\u{8}', 0);
    assert_eq!(t1.hour, 1);
    let t2 = process_digit_input_for_time(t, TimeField::Minute, '\u{8}', 0);
    assert_eq!(t2.minute, 4);
    // On the second position, clear zeroes the field.
    let t3 = process_digit_input_for_time(t, TimeField::Hour, '\u{8}', 1);
    assert_eq!(t3.hour, 0);
    let t4 = process_digit_input_for_time(t, TimeField::Minute, '\u{8}', 1);
    assert_eq!(t4.minute, 0);
}

#[test]
fn duration_digit_entry_test() {
    // 90 minutes shows as 1 hour 30.
    let d = 90i64;
    // First keystroke on the hour view replaces the hour part.
    assert_eq!(process_digit_input_for_duration(d, TimeField::Hour, '2', 0), 150);
    // Second hour digit obeys the break cap: leading 2 takes at most 3.
    assert_eq!(process_digit_input_for_duration(150, TimeField::Hour, '3', 1), 23 * 60 + 30);
    assert_eq!(process_digit_input_for_duration(150, TimeField::Hour, '4', 1), 150);
    // Minute view: replace then extend.
    assert_eq!(process_digit_input_for_duration(d, TimeField::Minute, '5', 0), 65);
    assert_eq!(process_digit_input_for_duration(65, TimeField::Minute, '9', 1), 119);
    // A minute part above 5 takes no second digit.
    assert_eq!(process_digit_input_for_duration(90, TimeField::Minute, '9', 1), 90);
}

#[test]
fn duration_clear_test() {
    let d = 23 * 60 + 45;
    assert_eq!(process_digit_input_for_duration(d, TimeField::Hour, '\u{8}', 0), 2 * 60 + 45);
    assert_eq!(process_digit_input_for_duration(d, TimeField::Minute, '\u{8}', 0), 23 * 60 + 4);
    assert_eq!(process_digit_input_for_duration(d, TimeField::Hour, '\u{8}', 1), 45);
    assert_eq!(process_digit_input_for_duration(d, TimeField::Minute, '\u{8}', 1), 23 * 60);
}

#[test]
fn number_digit_entry_test() {
    assert_eq!(process_digit_input_for_number(26, '3', 0), 3);
    assert_eq!(process_digit_input_for_number(3, '0', 1), 30);
    assert_eq!(process_digit_input_for_number(26, 'x', 0), 26);
}

#[test]
fn scroll_status_cycle_test() {
    let settings: Settings = Default::default();
    let mut d = FlexDay::new(Date::from_ymd(2017, 5, 3), &settings);
    assert_eq!(d.status, DayStatus::Worked);
    process_key_up_down(Field::Status, false, &mut d);
    assert_eq!(d.status, DayStatus::Holiday);
    process_key_up_down(Field::Status, false, &mut d);
    assert_eq!(d.status, DayStatus::Half);
    process_key_up_down(Field::Status, false, &mut d);
    assert_eq!(d.status, DayStatus::Sick);
    process_key_up_down(Field::Status, false, &mut d);
    assert_eq!(d.status, DayStatus::Sick);
    process_key_up_down(Field::Status, true, &mut d);
    assert_eq!(d.status, DayStatus::Half);
    process_key_up_down(Field::Status, true, &mut d);
    assert_eq!(d.status, DayStatus::Holiday);
    process_key_up_down(Field::Status, true, &mut d);
    assert_eq!(d.status, DayStatus::Worked);
    process_key_up_down(Field::Status, true, &mut d);
    assert_eq!(d.status, DayStatus::Worked);
}

#[test]
fn scroll_weekend_day_test() {
    let settings: Settings = Default::default();
    let mut d = FlexDay::new(Date::from_ymd(2017, 5, 6), &settings);
    assert_eq!(d.status, DayStatus::Weekend);
    process_key_up_down(Field::Status, false, &mut d);
    assert_eq!(d.status, DayStatus::Weekend);
    process_key_up_down(Field::Status, true, &mut d);
    assert_eq!(d.status, DayStatus::Worked);
    process_key_up_down(Field::Status, false, &mut d);
    assert_eq!(d.status, DayStatus::Weekend);
}

#[test]
fn scroll_times_wrap_test() {
    let settings: Settings = Default::default();
    let mut d = FlexDay::new(Date::from_ymd(2017, 5, 3), &settings);
    d.start = TimeOfDay::from_hm(23, 59);
    process_key_up_down(Field::StartHour, true, &mut d);
    assert_eq!(d.start, TimeOfDay::from_hm(0, 59));
    process_key_up_down(Field::StartMinute, true, &mut d);
    assert_eq!(d.start, TimeOfDay::from_hm(1, 0));
    d.end = TimeOfDay::from_hm(0, 0);
    process_key_up_down(Field::EndMinute, false, &mut d);
    assert_eq!(d.end, TimeOfDay::from_hm(23, 59));
}

#[test]
fn scroll_pause_bounds_test() {
    let settings: Settings = Default::default();
    let mut d = FlexDay::new(Date::from_ymd(2017, 5, 3), &settings);
    d.pause = 30;
    process_key_up_down(Field::PauseHour, true, &mut d);
    assert_eq!(d.pause, 90);
    process_key_up_down(Field::PauseMinute, false, &mut d);
    assert_eq!(d.pause, 89);
    d.pause = 10;
    process_key_up_down(Field::PauseHour, false, &mut d);
    assert_eq!(d.pause, 0);
    process_key_up_down(Field::PauseMinute, false, &mut d);
    assert_eq!(d.pause, 0);
}

#[test]
fn digit_input_dispatch_test() {
    let settings: Settings = Default::default();
    let mut d = FlexDay::new(Date::from_ymd(2017, 5, 3), &settings);
    process_digit_input(Field::StartHour, '8', 0, &mut d);
    assert_eq!(d.start.hour, 8);
    process_digit_input(Field::EndMinute, '1', 0, &mut d);
    assert_eq!(d.end.minute, 1);
    process_digit_input(Field::PauseHour, '1', 0, &mut d);
    assert_eq!(d.pause, 60 + 30);
}

#[test]
fn editor_session_cursor_test() {
    // The cursor advances only on accepted keystrokes: after '2' it sits
    // on the second position, a rejected '5' leaves it there, and an
    // accepted '3' brings it back.
    let settings: Settings = Default::default();
    let mut d = FlexDay::new(Date::from_ymd(2017, 5, 3), &settings);
    d.start = TimeOfDay::from_hm(9, 0);
    let mut e = DayEditor::open(d, Field::StartHour);
    e.handle_key(EditKey::Keystroke('2'));
    assert_eq!(e.day.start.hour, 2);
    assert_eq!(e.digit_idx, 1);
    e.handle_key(EditKey::Keystroke('5'));
    assert_eq!(e.day.start.hour, 2);
    assert_eq!(e.digit_idx, 1);
    e.handle_key(EditKey::Keystroke('3'));
    assert_eq!(e.day.start.hour, 23);
    assert_eq!(e.digit_idx, 0);
}

#[test]
fn editor_session_navigation_test() {
    let settings: Settings = Default::default();
    let d = FlexDay::new(Date::from_ymd(2017, 5, 3), &settings);
    let mut e = DayEditor::open(d, Field::Status);
    // Saturates at the first field.
    e.handle_key(EditKey::FieldLeft);
    assert_eq!(e.field, Field::Status);
    e.handle_key(EditKey::FieldRight);
    assert_eq!(e.field, Field::StartHour);
    // Moving fields resets the cursor.
    e.handle_key(EditKey::Keystroke('1'));
    assert_eq!(e.digit_idx, 1);
    e.handle_key(EditKey::FieldRight);
    assert_eq!(e.digit_idx, 0);
    assert_eq!(e.field, Field::StartMinute);
    for _ in 0..10 {
        e.handle_key(EditKey::FieldRight);
    }
    // Saturates at the last field.
    assert_eq!(e.field, Field::PauseMinute);
}

#[test]
fn editor_ignores_digits_on_status_test() {
    let settings: Settings = Default::default();
    let d = FlexDay::new(Date::from_ymd(2017, 5, 3), &settings);
    let mut e = DayEditor::open(d, Field::Status);
    e.handle_key(EditKey::Keystroke('5'));
    assert_eq!(e.day.status, DayStatus::Worked);
    assert_eq!(e.digit_idx, 0);
}

#[test]
fn initial_edit_field_test() {
    assert_eq!(initial_edit_field(DayStatus::Weekend, false, false), Field::Status);
    assert_eq!(initial_edit_field(DayStatus::Sick, true, true), Field::Status);
    assert_eq!(initial_edit_field(DayStatus::Holiday, false, true), Field::Status);
    assert_eq!(initial_edit_field(DayStatus::Worked, true, false), Field::StartMinute);
    assert_eq!(initial_edit_field(DayStatus::Worked, false, true), Field::StartMinute);
    assert_eq!(initial_edit_field(DayStatus::Worked, false, false), Field::EndMinute);
    assert_eq!(initial_edit_field(DayStatus::Half, false, false), Field::EndMinute);
}
