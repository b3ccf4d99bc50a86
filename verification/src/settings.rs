//! The read-only configuration the engine computes against: the weekly
//! schedule template, the weekly minute target, and the annual leave
//! allotment.  Holiday counts are held in half-days throughout, so that
//! half-day bookings need no fractional arithmetic.

use vstd::prelude::*;
use crate::calendar::{
    Date, TimeOfDay, Weekday, date_valid, index_of_weekday, spec_weekday_of, time_valid,
    weekday_of_index,
};

verus! {

/// Largest break length a day can carry, in minutes: one minute short of a
/// full day, so that hour and minute parts stay two digits each.
pub const MAX_PAUSE: i64 = 1439;

/// Largest weekly goal the engine accepts: a full week of minutes.
pub const MAX_WEEK_GOAL: i64 = 10080;

/// The default start, end and break length of one weekday.
#[derive(Copy, Clone, Debug, PartialEq, Eq, Structural)]
pub struct SettingsDay {
    pub weekday: Weekday,
    pub start: TimeOfDay,
    pub end: TimeOfDay,
    pub pause: i64,
}

/// A schedule entry the library accepts.
pub open spec fn settings_day_wf(d: SettingsDay) -> bool {
    &&& time_valid(d.start)
    &&& time_valid(d.end)
    &&& 0 <= d.pause <= MAX_PAUSE
}

impl Default for SettingsDay {
    /// A nine-to-five day with a half-hour break.
    fn default() -> (r: SettingsDay)
        ensures
            r == spec_default_settings_day(),
            settings_day_wf(r),
    {
        SettingsDay {
            weekday: Weekday::Mon,
            start: TimeOfDay { hour: 9, minute: 0 },
            end: TimeOfDay { hour: 17, minute: 0 },
            pause: 30,
        }
    }
}

pub open spec fn spec_default_settings_day() -> SettingsDay {
    SettingsDay {
        weekday: Weekday::Mon,
        start: TimeOfDay { hour: 9, minute: 0 },
        end: TimeOfDay { hour: 17, minute: 0 },
        pause: 30,
    }
}

/// The five working days' default hours, Monday through Friday.
#[derive(Clone, Debug, PartialEq)]
pub struct WeekSchedule {
    pub sched: Vec<SettingsDay>,
}

/// A schedule holds exactly the five working days, in weekday order, each
/// entry well formed.
pub open spec fn week_schedule_wf(w: WeekSchedule) -> bool {
    &&& w.sched@.len() == 5
    &&& forall|i: int|
        0 <= i < 5 ==> (#[trigger] w.sched@[i]).weekday == weekday_of_index(i) && settings_day_wf(
            w.sched@[i],
        )
}

impl Default for WeekSchedule {
    /// Monday to Thursday 9:10 to 17:10, Friday ending at 16:50, with a
    /// half-hour break each day.
    fn default() -> (r: WeekSchedule)
        ensures
            week_schedule_wf(r),
            r.sched@.len() == 5,
            forall|i: int|
                0 <= i < 5 ==> (#[trigger] r.sched@[i]) == spec_default_sched_entry(i),
    {
        let mut sched: Vec<SettingsDay> = Vec::new();
        sched.push(
            SettingsDay {
                weekday: Weekday::Mon,
                start: TimeOfDay { hour: 9, minute: 10 },
                end: TimeOfDay { hour: 17, minute: 10 },
                pause: 30,
            },
        );
        sched.push(
            SettingsDay {
                weekday: Weekday::Tue,
                start: TimeOfDay { hour: 9, minute: 10 },
                end: TimeOfDay { hour: 17, minute: 10 },
                pause: 30,
            },
        );
        sched.push(
            SettingsDay {
                weekday: Weekday::Wed,
                start: TimeOfDay { hour: 9, minute: 10 },
                end: TimeOfDay { hour: 17, minute: 10 },
                pause: 30,
            },
        );
        sched.push(
            SettingsDay {
                weekday: Weekday::Thu,
                start: TimeOfDay { hour: 9, minute: 10 },
                end: TimeOfDay { hour: 17, minute: 10 },
                pause: 30,
            },
        );
        sched.push(
            SettingsDay {
                weekday: Weekday::Fri,
                start: TimeOfDay { hour: 9, minute: 10 },
                end: TimeOfDay { hour: 16, minute: 50 },
                pause: 30,
            },
        );
        WeekSchedule { sched }
    }
}

/// The default schedule entry for working day `i`, Monday being 0.
pub open spec fn spec_default_sched_entry(i: int) -> SettingsDay {
    SettingsDay {
        weekday: weekday_of_index(i),
        start: TimeOfDay { hour: 9, minute: 10 },
        end: if i == 4 {
            TimeOfDay { hour: 16, minute: 50 }
        } else {
            TimeOfDay { hour: 17, minute: 10 }
        },
        pause: 30,
    }
}

/// Fixed clock-in and clock-out offsets, in minutes.
#[derive(Copy, Clone, Debug, PartialEq, Eq, Structural)]
pub struct Offset {
    pub entry: i64,
    pub exit: i64,
}

impl Default for Offset {
    fn default() -> (r: Offset)
        ensures
            r.entry == 0 && r.exit == 0,
    {
        Offset { entry: 0, exit: 0 }
    }
}

/// The engine's configuration.
#[derive(Clone, Debug, PartialEq)]
pub struct Settings {
    pub week_sched: WeekSchedule,
    /// Annual holiday allotment, in half-days.
    pub holidays_per_year: i32,
    /// Weekly working-time target, in minutes.
    pub week_goal: i64,
    /// Minutes credited for a holiday or sick day.
    pub holiday_duration: i64,
    pub offsets: Offset,
}

/// A configuration the engine accepts.
pub open spec fn settings_wf(s: Settings) -> bool {
    &&& week_schedule_wf(s.week_sched)
    &&& 0 <= s.week_goal <= MAX_WEEK_GOAL
    &&& 0 <= s.holiday_duration <= MAX_WEEK_GOAL
    &&& s.holidays_per_year >= 0
}

/// The default weekly target: 37 hours, in minutes.
pub fn default_week_goal() -> (r: i64)
    ensures
        r == 2220,
{
    37 * 60
}

/// The default holiday-equivalent duration: a fifth of the weekly target.
pub fn default_holiday_duration() -> (r: i64)
    ensures
        r == 444,
{
    2220 / 5
}

/// The default annual holiday allotment, in half-days: 26 whole days.
pub fn default_holidays_per_year() -> (r: i32)
    ensures
        r == 52,
{
    52
}

impl Default for Settings {
    fn default() -> (r: Settings)
        ensures
            settings_wf(r),
            r.week_sched.sched@.len() == 5,
            forall|i: int|
                0 <= i < 5 ==> (#[trigger] r.week_sched.sched@[i]) == spec_default_sched_entry(i),
            r.holidays_per_year == 52,
            r.week_goal == 2220,
            r.holiday_duration == 444,
            r.offsets == (Offset { entry: 0, exit: 0 }),
    {
        Settings {
            week_sched: WeekSchedule::default(),
            holidays_per_year: default_holidays_per_year(),
            week_goal: default_week_goal(),
            holiday_duration: default_holiday_duration(),
            offsets: Offset::default(),
        }
    }
}

/// The schedule entry a given date falls back on: the fixed weekend default
/// on Saturday and Sunday, the weekday's schedule entry otherwise.
pub open spec fn spec_default_day_settings(s: Settings, day: Date) -> SettingsDay {
    let w = spec_weekday_of(day);
    if w == Weekday::Sat || w == Weekday::Sun {
        SettingsDay { weekday: w, ..spec_default_settings_day() }
    } else {
        s.week_sched.sched@[index_of_weekday(w)]
    }
}

impl Settings {
    /// The default hours for a date, resolved through the weekly schedule;
    /// Saturday and Sunday get the fixed weekend default.
    pub fn get_default_day_settings_for(&self, day: &Date) -> (r: SettingsDay)
        requires
            settings_wf(*self),
            date_valid(*day),
        ensures
            r == spec_default_day_settings(*self, *day),
            settings_day_wf(r),
            r.weekday == spec_weekday_of(*day),
    {
        let wd = day.weekday();
        match wd {
            Weekday::Sat | Weekday::Sun => {
                let mut d = SettingsDay::default();
                d.weekday = wd;
                d
            },
            _ => {
                let idx = crate::calendar::num_days_from_monday(wd) as usize;
                self.week_sched.sched[idx]
            },
        }
    }
}

} // verus!
