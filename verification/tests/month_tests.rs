use rusty_flexi::calendar::Date;
use rusty_flexi::flexday::DayStatus;
use rusty_flexi::flexmonth::FlexMonth;
use rusty_flexi::settings::Settings;

#[test]
fn get_week_with_day_test() {
    let settings: Settings = Default::default();
    let m = FlexMonth::new(2017, 5, &settings);
    let w = m.get_week_with_day(Date::from_ymd(2017, 5, 10)).unwrap();
    assert_eq!(w.1.days[0].date.unwrap().day, 8);
}

#[test]
fn create_month_test() {
    let settings: Settings = Default::default();
    let mut month = FlexMonth::new(2017, 5, &settings);

    assert_eq!(month.weeks.len(), 4);
    assert_eq!(month.weeks[0].days[0].date, Some(Date::from_ymd(2017, 5, 1)));
    assert_eq!(month.weeks[3].days[6].date, Some(Date::from_ymd(2017, 5, 28)));

    month = FlexMonth::new(2017, 2, &settings);
    assert_eq!(month.weeks.len(), 4);
    assert_eq!(month.weeks[0].days[0].date, Some(Date::from_ymd(2017, 1, 30)));
    assert_eq!(month.weeks[3].days[6].date, Some(Date::from_ymd(2017, 2, 26)));

    month = FlexMonth::new(2017, 4, &settings);
    assert_eq!(month.weeks.len(), 4);
    assert_eq!(month.weeks[0].days[0].date, Some(Date::from_ymd(2017, 4, 3)));
    assert_eq!(month.weeks[3].days[6].date, Some(Date::from_ymd(2017, 4, 30)));

    month = FlexMonth::new(2017, 1, &settings);
    assert_eq!(month.weeks.len(), 4);
    assert_eq!(month.weeks[0].days[0].date, Some(Date::from_ymd(2017, 1, 2)));
    assert_eq!(month.weeks[3].days[6].date, Some(Date::from_ymd(2017, 1, 29)));

    month = FlexMonth::new(2016, 11, &settings);
    assert_eq!(month.weeks.len(), 4);
    assert_eq!(month.weeks[0].days[0].date, Some(Date::from_ymd(2016, 10, 31)));
    assert_eq!(month.weeks[3].days[6].date, Some(Date::from_ymd(2016, 11, 27)));

    month = FlexMonth::new(2016, 12, &settings);
    assert_eq!(month.weeks.len(), 5);
    assert_eq!(month.weeks[0].days[0].date, Some(Date::from_ymd(2016, 11, 28)));
    assert_eq!(month.weeks[4].days[6].date, Some(Date::from_ymd(2017, 1, 1)));
}

#[test]
fn may_2017_grid_test() {
    // May 2017: four weeks, Monday the 1st through Sunday the 28th.
    let settings: Settings = Default::default();
    let m = FlexMonth::new(2017, 5, &settings);
    assert_eq!(m.weeks.len(), 4);
    assert_eq!(m.weeks[0].days[0].date, Some(Date::from_ymd(2017, 5, 1)));
    assert_eq!(m.weeks[3].days[6].date, Some(Date::from_ymd(2017, 5, 28)));
}

#[test]
fn december_seeding_test() {
    // December 2016: five weeks from 2016-11-28 to 2017-01-01, and on first
    // creation every still-worked day of the last week becomes a holiday.
    let settings: Settings = Default::default();
    let mut m = FlexMonth::new(2016, 12, &settings);
    assert_eq!(m.weeks.len(), 5);
    assert_eq!(m.weeks[0].days[0].date, Some(Date::from_ymd(2016, 11, 28)));
    assert_eq!(m.weeks[4].days[6].date, Some(Date::from_ymd(2017, 1, 1)));
    m.seed_new_month();
    for i in 0..5 {
        assert_eq!(m.weeks[4].days[i].status, DayStatus::Holiday);
    }
    assert_eq!(m.weeks[4].days[5].status, DayStatus::Weekend);
    assert_eq!(m.weeks[4].days[6].status, DayStatus::Weekend);
}

#[test]
fn january_seeding_test() {
    let settings: Settings = Default::default();
    let mut m = FlexMonth::new(2017, 1, &settings);
    m.seed_new_month();
    assert_eq!(m.weeks[0].days[0].status, DayStatus::Holiday);
    assert_eq!(m.weeks[0].days[1].status, DayStatus::Holiday);
    assert_eq!(m.weeks[0].days[2].status, DayStatus::Worked);
}

#[test]
fn fresh_month_weekend_count_test() {
    // Each freshly built week holds exactly two weekend days.
    let settings: Settings = Default::default();
    for (y, m) in [(2017, 5), (2016, 12), (2017, 2)] {
        let month = FlexMonth::new(y, m, &settings);
        for week in &month.weeks {
            let weekend = week.days.iter().filter(|d| d.status == DayStatus::Weekend).count();
            assert_eq!(weekend, 2);
            assert_eq!(week.days[5].status, DayStatus::Weekend);
            assert_eq!(week.days[6].status, DayStatus::Weekend);
        }
    }
}

#[test]
fn balance_against_goal_test() {
    // Four full five-day weeks of 2250 minutes against a 2220-minute goal
    // leave a balance of 120 minutes.
    let mut settings: Settings = Default::default();
    settings.week_goal = 2220;
    let mut m = FlexMonth::new(2017, 5, &settings);
    for w in 0..4 {
        for i in 0..5 {
            let mut d = m.weeks[w].days[i];
            // 8:00 to 16:00 with a 30-minute break: 450 worked minutes a
            // day, so 2250 a week.
            d.start = rusty_flexi::calendar::TimeOfDay::from_hm(8, 0);
            d.end = rusty_flexi::calendar::TimeOfDay::from_hm(16, 0);
            d.pause = 30;
            m.update_day(d);
        }
    }
    m.update_balance(settings.holiday_duration);
    assert_eq!(m.total_minute(settings.holiday_duration), 2250 * 4);
    assert_eq!(m.balance, 2250 * 4 - 2220 * 4);
    assert_eq!(m.balance, 120);
}

#[test]
fn update_day_not_found_test() {
    let settings: Settings = Default::default();
    let mut m = FlexMonth::new(2017, 5, &settings);
    let mut d = m.weeks[0].days[0];
    d.date = Some(Date::from_ymd(2019, 1, 1));
    assert!(m.update_day(d).is_none());
    assert!(m.get_week_with_day(Date::from_ymd(2019, 1, 1)).is_none());
}

#[test]
fn get_sick_days_test() {
    let settings: Settings = Default::default();
    let mut m = FlexMonth::new(2017, 5, &settings);
    let mut d = m.weeks[1].days[2];
    d.status = DayStatus::Sick;
    m.update_day(d);
    let sick = m.get_sick_days();
    assert_eq!(sick.len(), 1);
    assert_eq!(sick[0], Date::from_ymd(2017, 5, 10));
}
