use rusty_flexi::calendar::Date;
use rusty_flexi::codec::{decode_days_off, decode_month, encode_days_off, encode_month};
use rusty_flexi::daysoff::DaysOff;
use rusty_flexi::flexday::DayStatus;
use rusty_flexi::flexmonth::FlexMonth;
use rusty_flexi::settings::Settings;

#[test]
fn month_code_round_trip_test() {
    let settings: Settings = Default::default();
    let mut m = FlexMonth::new(2017, 5, &settings);
    let mut d = m.weeks[1].days[2];
    d.status = DayStatus::Sick;
    m.update_day(d);
    m.update_balance(settings.holiday_duration);
    let coded = encode_month(&m);
    let back = decode_month(&coded).unwrap();
    assert_eq!(back, m);
}

#[test]
fn december_month_round_trip_test() {
    let settings: Settings = Default::default();
    let mut m = FlexMonth::new(2016, 12, &settings);
    m.seed_new_month();
    m.update_balance(settings.holiday_duration);
    let coded = encode_month(&m);
    let back = decode_month(&coded).unwrap();
    assert_eq!(back, m);
}

#[test]
fn days_off_code_round_trip_test() {
    let s = Settings::default();
    let mut l = DaysOff::new(2017, &s);
    l.holidays_left = 31;
    l.add_sick_day(Date::from_ymd(2017, 2, 1));
    l.add_sick_day(Date::from_ymd(2017, 5, 10));
    let coded = encode_days_off(&l);
    let back = decode_days_off(&coded).unwrap();
    assert_eq!(back, l);
}

#[test]
fn decode_rejects_garbage_test() {
    assert!(decode_month(&vec![]).is_none());
    assert!(decode_month(&vec![2017, 5, 2220, 0, 4]).is_none());
    assert!(decode_month(&vec![2017, 13, 2220, 0, 4]).is_none());
    assert!(decode_days_off(&vec![2017, 52]).is_none());
    assert!(decode_days_off(&vec![2017, 52, 1, 2017, 2, 30]).is_none());
    // an unsorted journal is refused
    assert!(
        decode_days_off(&vec![2017, 52, 2, 2017, 5, 10, 2017, 2, 1]).is_none()
    );
}

#[test]
fn decode_rejects_tampered_day_test() {
    let settings: Settings = Default::default();
    let m = FlexMonth::new(2017, 5, &settings);
    let mut coded = encode_month(&m);
    // hour out of range
    coded[5 + 6] = 99;
    assert!(decode_month(&coded).is_none());
}
