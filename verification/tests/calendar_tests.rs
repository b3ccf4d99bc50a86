use rusty_flexi::calendar::{
    Date, DateIter, Weekday, date_le, date_lt, days_in_month, find_first_monday_of_grid,
    find_last_sunday_for, find_next_monday, find_prec_monday, is_leap_year, month_to_string,
    next_month, prev_month, weekday_to_string,
};

#[test]
fn find_next_monday_test() {
    let mut day = Date::from_ymd(2017, 4, 1);
    let mut first_monday = find_next_monday(day);
    assert_eq!(first_monday, Date::from_ymd(2017, 4, 3));

    day = Date::from_ymd(2017, 5, 1);
    first_monday = find_next_monday(day);
    assert_eq!(first_monday, Date::from_ymd(2017, 5, 1));

    day = Date::from_ymd(2017, 3, 1);
    first_monday = find_next_monday(day);
    assert_eq!(first_monday, Date::from_ymd(2017, 3, 6));

    day = Date::from_ymd(2016, 12, 1);
    first_monday = find_next_monday(day);
    assert_eq!(first_monday, Date::from_ymd(2016, 12, 5));
}

#[test]
fn find_prec_monday_test() {
    let mut day = Date::from_ymd(2017, 4, 1);
    let mut monday = find_prec_monday(day);
    assert_eq!(monday, Date::from_ymd(2017, 3, 27));

    day = Date::from_ymd(2017, 5, 1);
    monday = find_prec_monday(day);
    assert_eq!(monday, Date::from_ymd(2017, 5, 1));

    day = Date::from_ymd(2017, 3, 1);
    monday = find_prec_monday(day);
    assert_eq!(monday, Date::from_ymd(2017, 2, 27));

    day = Date::from_ymd(2016, 12, 1);
    monday = find_prec_monday(day);
    assert_eq!(monday, Date::from_ymd(2016, 11, 28));
}

#[test]
fn find_last_sunday_test() {
    let mut sunday = find_last_sunday_for(2017, 4);
    assert_eq!(sunday, Date::from_ymd(2017, 4, 30));

    sunday = find_last_sunday_for(2017, 5);
    assert_eq!(sunday, Date::from_ymd(2017, 5, 28));

    sunday = find_last_sunday_for(2017, 3);
    assert_eq!(sunday, Date::from_ymd(2017, 4, 2));

    sunday = find_last_sunday_for(2016, 12);
    assert_eq!(sunday, Date::from_ymd(2017, 1, 1));
}

#[test]
fn naivedate_iter_test() {
    let first_monday = Date::from_ymd(2017, 4, 1);
    let last_sunday = Date::from_ymd(2017, 4, 30);
    let mut itr = DateIter::new(first_monday, last_sunday);
    let mut count = 0;
    while let Some(_) = itr.next() {
        count += 1;
    }
    assert_eq!(count, 30);
}

#[test]
fn next_prev_month_wrap_test() {
    assert_eq!(next_month(2016, 12), (2017, 1));
    assert_eq!(next_month(2017, 5), (2017, 6));
    assert_eq!(prev_month(2017, 1), (2016, 12));
    assert_eq!(prev_month(2017, 6), (2017, 5));
}

#[test]
fn weekday_of_known_dates_test() {
    assert_eq!(Date::from_ymd(2017, 5, 1).weekday(), Weekday::Mon);
    assert_eq!(Date::from_ymd(2017, 5, 5).weekday(), Weekday::Fri);
    assert_eq!(Date::from_ymd(2016, 12, 31).weekday(), Weekday::Sat);
    assert_eq!(Date::from_ymd(2017, 1, 1).weekday(), Weekday::Sun);
    assert_eq!(Date::from_ymd(2000, 2, 29).weekday(), Weekday::Tue);
}

#[test]
fn leap_year_and_month_length_test() {
    assert!(is_leap_year(2016));
    assert!(!is_leap_year(2017));
    assert!(!is_leap_year(1900));
    assert!(is_leap_year(2000));
    assert_eq!(days_in_month(2016, 2), 29);
    assert_eq!(days_in_month(2017, 2), 28);
    assert_eq!(days_in_month(2017, 4), 30);
    assert_eq!(days_in_month(2017, 12), 31);
}

#[test]
fn date_succ_pred_test() {
    assert_eq!(Date::from_ymd(2016, 12, 31).succ(), Date::from_ymd(2017, 1, 1));
    assert_eq!(Date::from_ymd(2016, 2, 28).succ(), Date::from_ymd(2016, 2, 29));
    assert_eq!(Date::from_ymd(2017, 2, 28).succ(), Date::from_ymd(2017, 3, 1));
    assert_eq!(Date::from_ymd(2017, 1, 1).pred(), Date::from_ymd(2016, 12, 31));
    assert_eq!(Date::from_ymd(2017, 3, 1).pred(), Date::from_ymd(2017, 2, 28));
}

#[test]
fn date_order_test() {
    let a = Date::from_ymd(2016, 12, 31);
    let b = Date::from_ymd(2017, 1, 1);
    assert!(date_lt(a, b));
    assert!(date_le(a, a));
    assert!(!date_lt(b, a));
}

#[test]
fn grid_is_whole_weeks_test() {
    // The grid of any month runs Monday to Sunday over 28 or 35 days.
    for (y, m) in [(2017, 5), (2016, 12), (2017, 2), (2020, 2), (2019, 6)] {
        let s = find_first_monday_of_grid(y, m);
        let e = find_last_sunday_for(y, m);
        assert_eq!(s.weekday(), Weekday::Mon);
        assert_eq!(e.weekday(), Weekday::Sun);
        let mut itr = DateIter::new(s, e);
        let mut count = 0;
        while let Some(_) = itr.next() {
            count += 1;
        }
        assert!(count == 28 || count == 35);
    }
}

#[test]
fn month_and_weekday_names_test() {
    assert_eq!(month_to_string(5), "May");
    assert_eq!(month_to_string(12), "December");
    assert_eq!(month_to_string(0), "???");
    assert_eq!(weekday_to_string(Weekday::Mon), "Mon");
    assert_eq!(weekday_to_string(Weekday::Sun), "Sun");
}
