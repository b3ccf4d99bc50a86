//! The decisions behind grid navigation and the commit of a day edit:
//! which month to load when a date falls off the grid, which day a month
//! change lands on, and how a committed edit flows into the month and the
//! days-off ledger.

use vstd::prelude::*;
use crate::calendar::{
    Date, TimeOfDay, Weekday, index_of_weekday, num_days_from_monday, spec_next_month,
    spec_prev_month, time_valid,
};
use crate::daysoff::{DaysOff, days_off_wf, spec_holiday_delta, spec_sick_after};
use crate::flexday::{DayStatus, FlexDay, day_wf};
use crate::flexmonth::{FlexMonth, month_wf, spec_balance, week_has_opt_date};
use crate::flexweek::FlexWeek;
use crate::settings::MAX_WEEK_GOAL;

verus! {

/// Which of a day's two clock times a direct time change targets.
pub enum HourField {
    Begin,
    End,
}

/// Which neighbouring month to move to.
#[derive(PartialEq, Eq, Structural)]
pub enum Direction {
    Previous,
    Next,
}

/// The month a whole-month move lands on.
pub open spec fn spec_month_in_direction(year: int, month: int, dir: Direction) -> (int, int) {
    match dir {
        Direction::Previous => spec_prev_month(year, month),
        Direction::Next => spec_next_month(year, month),
    }
}

/// Picks the month a whole-month move lands on.
pub fn month_in_direction(year: i32, month: u32, dir: Direction) -> (r: (i32, u32))
    requires
        1 <= month <= 12,
        i32::MIN < year < i32::MAX,
    ensures
        (r.0 as int, r.1 as int) == spec_month_in_direction(year as int, month as int, dir),
{
    match dir {
        Direction::Previous => crate::calendar::prev_month(year, month),
        Direction::Next => crate::calendar::next_month(year, month),
    }
}

/// The month to load when a date misses the loaded grid: the previous
/// month when the date's month number is smaller than the loaded one,
/// otherwise the next.
pub open spec fn spec_adjacent_month_for(year: int, month: int, target: Date) -> (int, int) {
    if (target.month as int) < month {
        spec_prev_month(year, month)
    } else {
        spec_next_month(year, month)
    }
}

/// Picks the month to load when a date misses the loaded grid.
pub fn adjacent_month_for(year: i32, month: u32, target: Date) -> (r: (i32, u32))
    requires
        1 <= month <= 12,
        i32::MIN < year < i32::MAX,
    ensures
        (r.0 as int, r.1 as int) == spec_adjacent_month_for(year as int, month as int, target),
{
    if target.month < month {
        crate::calendar::prev_month(year, month)
    } else {
        crate::calendar::next_month(year, month)
    }
}

/// The date in the first grid week that falls on a weekday.
pub fn first_day_at_weekday(m: &FlexMonth, wd: Weekday) -> (r: Option<Date>)
    requires
        month_wf(*m),
    ensures
        r == m.weeks@[0].days@[index_of_weekday(wd)].date,
{
    let idx = num_days_from_monday(wd) as usize;
    m.weeks[0].days[idx].date
}

/// The date in the last grid week that falls on a weekday.
pub fn last_day_at_weekday(m: &FlexMonth, wd: Weekday) -> (r: Option<Date>)
    requires
        month_wf(*m),
    ensures
        r == m.weeks@[m.weeks@.len() - 1].days@[index_of_weekday(wd)].date,
{
    let idx = num_days_from_monday(wd) as usize;
    m.weeks[m.weeks.len() - 1].days[idx].date
}

/// A direct clock-time change on a day: the start or end time is replaced,
/// but only on a worked or half day; other statuses carry no times.
pub open spec fn spec_change_time(d: FlexDay, time: TimeOfDay, field: HourField) -> FlexDay {
    match d.status {
        DayStatus::Worked | DayStatus::Half => match field {
            HourField::Begin => FlexDay { start: time, ..d },
            HourField::End => FlexDay { end: time, ..d },
        },
        _ => d,
    }
}

/// Applies a direct clock-time change to a day.
pub fn change_time(d: &mut FlexDay, time: TimeOfDay, field: HourField)
    requires
        day_wf(*old(d)),
        time_valid(time),
    ensures
        *final(d) == spec_change_time(*old(d), time, field),
        day_wf(*final(d)),
{
    match d.status {
        DayStatus::Worked | DayStatus::Half => {
            match field {
                HourField::Begin => {
                    d.start = time;
                },
                HourField::End => {
                    d.end = time;
                },
            }
        },
        _ => {},
    }
}

/// Commits an edited day: books the status transition into the days-off
/// ledger, writes the day back into its month, and recomputes the month's
/// balance.  Hands back the updated week when the day's date was found in
/// the grid; otherwise only the ledger has moved.
pub fn commit_day_edit(
    month: &mut FlexMonth,
    days_off: &mut DaysOff,
    old_status: DayStatus,
    d: FlexDay,
    holiday_duration: i64,
) -> (r: Option<FlexWeek>)
    requires
        month_wf(*old(month)),
        days_off_wf(*old(days_off)),
        day_wf(d),
        0 <= holiday_duration <= MAX_WEEK_GOAL,
        -1000000 <= old(days_off).holidays_left <= 1000000,
        old(days_off).sick_days@.len() < 100000,
        (old_status != d.status && (old_status == DayStatus::Sick || (d.status == DayStatus::Sick
            && old_status != DayStatus::Weekend))) ==> match d.date {
            Some(dt) => crate::calendar::date_valid(dt),
            None => false,
        },
    ensures
        month_wf(*final(month)),
        days_off_wf(*final(days_off)),
        final(days_off).year == old(days_off).year,
        final(days_off).holidays_left == old(days_off).holidays_left + spec_holiday_delta(
            old_status,
            d.status,
        ),
        final(days_off).sick_days@.to_set() == match d.date {
            Some(dt) => spec_sick_after(
                old(days_off).sick_days@.to_set(),
                old_status,
                d.status,
                dt,
            ),
            None => old(days_off).sick_days@.to_set(),
        },
        final(month).balance as int == spec_balance(*final(month), holiday_duration as int),
        match r {
            None => final(month).weeks@ == old(month).weeks@ && forall|w: int|
                0 <= w < old(month).weeks@.len() ==> !week_has_opt_date(
                    #[trigger] old(month).weeks@[w],
                    d.date,
                ),
            Some(week) => exists|w: int, i: int|
                {
                    &&& 0 <= w < old(month).weeks@.len() && 0 <= i < 7
                    &&& (#[trigger] old(month).weeks@[w].days@[i]).date == d.date
                    &&& final(month).weeks@[w].days@ == old(month).weeks@[w].days@.update(i, d)
                    &&& forall|w2: int|
                        0 <= w2 < old(month).weeks@.len() && w2 != w
                            ==> #[trigger] final(month).weeks@[w2] == old(month).weeks@[w2]
                    &&& week.days@ == final(month).weeks@[w].days@
                },
        },
{
    days_off.update_days_off(old_status, d);
    let week = month.update_day(d);
    month.update_balance(holiday_duration);
    week
}

} // verus!
