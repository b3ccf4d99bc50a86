//! One calendar day's attendance record: its status, start and end times,
//! break length, and the minutes it contributes to weekly totals.

use vstd::prelude::*;
use crate::calendar::{
    Date, TimeOfDay, Weekday, date_valid, spec_weekday_name, spec_weekday_of, time_valid,
    weekday_to_string,
};
use crate::display::{minutes_to_hhmm, spec_hhmm, spec_two_digits, u64_to_two_digits};
use crate::settings::{MAX_PAUSE, MAX_WEEK_GOAL, Settings, settings_day_wf, settings_wf,
    spec_default_day_settings};

verus! {

/// What a day counted for: a normal working day, a whole or half day of
/// holiday, a sick day, or a weekend day.
#[derive(Copy, Clone, Debug, PartialEq, Eq, Structural)]
pub enum DayStatus {
    Worked,
    Holiday,
    Half,
    Weekend,
    Sick,
}

impl Default for DayStatus {
    fn default() -> (r: DayStatus)
        ensures
            r == DayStatus::Worked,
    {
        DayStatus::Worked
    }
}

/// One day's attendance record.
#[derive(Copy, Clone, Debug, PartialEq)]
pub struct FlexDay {
    pub date: Option<Date>,
    pub weekday: Option<Weekday>,
    pub start: TimeOfDay,
    pub end: TimeOfDay,
    /// Break length, in minutes.
    pub pause: i64,
    pub status: DayStatus,
}

/// A record the engine accepts: valid date and times, a bounded break, and
/// a weekday that agrees with the date when both are present.
pub open spec fn day_wf(d: FlexDay) -> bool {
    &&& match d.date {
        Some(dt) => date_valid(dt),
        None => true,
    }
    &&& time_valid(d.start)
    &&& time_valid(d.end)
    &&& 0 <= d.pause <= MAX_PAUSE
    &&& match (d.date, d.weekday) {
        (Some(dt), Some(w)) => w == spec_weekday_of(dt),
        (Some(dt), None) => false,
        _ => true,
    }
}

impl Default for FlexDay {
    /// A dateless nine-to-five working day with a half-hour break.
    fn default() -> (r: FlexDay)
        ensures
            r == spec_default_day(),
            day_wf(r),
    {
        FlexDay {
            date: None,
            weekday: None,
            start: TimeOfDay { hour: 9, minute: 0 },
            end: TimeOfDay { hour: 17, minute: 0 },
            pause: 30,
            status: DayStatus::Worked,
        }
    }
}

pub open spec fn spec_default_day() -> FlexDay {
    FlexDay {
        date: None,
        weekday: None,
        start: TimeOfDay { hour: 9, minute: 0 },
        end: TimeOfDay { hour: 17, minute: 0 },
        pause: 30,
        status: DayStatus::Worked,
    }
}

/// The status a fresh day gets from its weekday alone.
pub open spec fn spec_day_status_for(wd: Weekday) -> DayStatus {
    if wd == Weekday::Sat || wd == Weekday::Sun {
        DayStatus::Weekend
    } else {
        DayStatus::Worked
    }
}

fn day_status_for(wd: Weekday) -> (r: DayStatus)
    ensures
        r == spec_day_status_for(wd),
{
    match wd {
        Weekday::Sat | Weekday::Sun => DayStatus::Weekend,
        _ => DayStatus::Worked,
    }
}

/// Minutes a day contributes to totals: worked time less the break for a
/// working day, the configured holiday-equivalent duration for holiday and
/// sick days, and nothing for a weekend day.  A working day's total may be
/// negative; such an entry is surfaced, not rejected.
pub open spec fn spec_total_minutes(d: FlexDay, holiday_duration: int) -> int {
    match d.status {
        DayStatus::Worked | DayStatus::Half => d.end.spec_minutes() - d.start.spec_minutes()
            - d.pause,
        DayStatus::Weekend => 0,
        DayStatus::Holiday | DayStatus::Sick => holiday_duration,
    }
}

impl FlexDay {
    /// A fresh record for a date, taking its hours from the settings'
    /// schedule and its status from the weekday.
    pub fn new(date: Date, settings: &Settings) -> (r: FlexDay)
        requires
            date_valid(date),
            settings_wf(*settings),
        ensures
            r.date == Some(date),
            r.weekday == Some(spec_weekday_of(date)),
            r.status == spec_day_status_for(spec_weekday_of(date)),
            r.start == spec_default_day_settings(*settings, date).start,
            r.end == spec_default_day_settings(*settings, date).end,
            r.pause == spec_default_day_settings(*settings, date).pause,
            day_wf(r),
    {
        let default = settings.get_default_day_settings_for(&date);
        let wd = date.weekday();
        FlexDay {
            date: Some(date),
            weekday: Some(wd),
            start: default.start,
            end: default.end,
            pause: default.pause,
            status: day_status_for(wd),
        }
    }

    /// The status glyph shown in front of a day.
    pub fn status_str(&self) -> (r: String)
        ensures
            r@ == spec_status_str(self.status),
    {
        match self.status {
            DayStatus::Worked => "N",
            DayStatus::Holiday => "H",
            DayStatus::Half => "h",
            DayStatus::Sick => "S",
            DayStatus::Weekend => "W",
        }.to_owned()
    }

    /// Minutes this day contributes to totals, given the configured
    /// holiday-equivalent duration.
    pub fn total_minutes(&self, holiday_duration: i64) -> (r: i64)
        requires
            day_wf(*self),
            0 <= holiday_duration <= MAX_WEEK_GOAL,
        ensures
            r as int == spec_total_minutes(*self, holiday_duration as int),
            -1440 - MAX_PAUSE <= r <= MAX_WEEK_GOAL,
    {
        match self.status {
            DayStatus::Worked | DayStatus::Half => {
                self.end.minutes_of_day() as i64 - self.start.minutes_of_day() as i64 - self.pause
            },
            DayStatus::Weekend => 0,
            DayStatus::Holiday | DayStatus::Sick => holiday_duration,
        }
    }

    /// Reassigns the weekday, deriving the status anew from it.
    pub fn set_weekday(&mut self, wd: Weekday)
        ensures
            *final(self) == (FlexDay {
                weekday: Some(wd),
                status: spec_day_status_for(wd),
                ..*old(self)
            }),
    {
        self.weekday = Some(wd);
        self.status = day_status_for(wd);
    }

    /// The weekday this record sits on, if any.
    pub fn weekday(&self) -> (r: Option<Weekday>)
        ensures
            r == self.weekday,
    {
        self.weekday
    }
}

/// The holiday toggle: a pure toggle against `Worked` — pressing it on a
/// holiday restores `Worked`, on anything else it books a holiday.
pub open spec fn spec_toggle_holiday(s: DayStatus) -> DayStatus {
    if s == DayStatus::Holiday {
        DayStatus::Worked
    } else {
        DayStatus::Holiday
    }
}

/// The sick toggle: a pure toggle against `Worked`.
pub open spec fn spec_toggle_sick(s: DayStatus) -> DayStatus {
    if s == DayStatus::Sick {
        DayStatus::Worked
    } else {
        DayStatus::Sick
    }
}

/// The status after one press of a direct toggle key on a day: `h` books
/// or clears a holiday, `s` a sick day, anything else changes nothing; on
/// a Saturday or Sunday every key is a no-op.
pub open spec fn spec_status_after_key(st: DayStatus, wd: Weekday, c: char) -> DayStatus {
    if wd == Weekday::Sat || wd == Weekday::Sun {
        st
    } else if c == 'h' {
        spec_toggle_holiday(st)
    } else if c == 's' {
        spec_toggle_sick(st)
    } else {
        st
    }
}

impl FlexDay {
    /// Applies a direct status toggle key to the day.  The day must carry
    /// a weekday, which decides whether the key may act at all.
    pub fn change_status(&mut self, c: char)
        requires
            old(self).weekday is Some,
        ensures
            *final(self) == (FlexDay {
                status: spec_status_after_key(
                    old(self).status,
                    old(self).weekday->Some_0,
                    c,
                ),
                ..*old(self)
            }),
    {
        match self.weekday {
            Some(Weekday::Sat) | Some(Weekday::Sun) => {},
            _ => {
                if c == 'h' {
                    self.status = if is_status(self.status, DayStatus::Holiday) {
                        DayStatus::Worked
                    } else {
                        DayStatus::Holiday
                    };
                } else if c == 's' {
                    self.status = if is_status(self.status, DayStatus::Sick) {
                        DayStatus::Worked
                    } else {
                        DayStatus::Sick
                    };
                }
            },
        }
    }
}

fn is_status(a: DayStatus, b: DayStatus) -> (r: bool)
    ensures
        r == (a == b),
{
    a == b
}

/// Both direct toggles return a worked day to `Worked` when pressed twice:
/// the first press books the leave, the second clears it again.
pub proof fn lemma_toggle_twice(st: DayStatus)
    ensures
        spec_toggle_holiday(spec_toggle_holiday(DayStatus::Worked)) == DayStatus::Worked,
        spec_toggle_sick(spec_toggle_sick(DayStatus::Worked)) == DayStatus::Worked,
        st != DayStatus::Holiday ==> spec_toggle_holiday(spec_toggle_holiday(st))
            == DayStatus::Worked,
        st != DayStatus::Sick ==> spec_toggle_sick(spec_toggle_sick(st)) == DayStatus::Worked,
{
}

/// The line a day is shown as: the status glyph, the weekday's short name
/// (a placeholder when none), the day and month two digits each, then the
/// times — written out for a worked or half day, dashed placeholders
/// otherwise, with the total only where one counts.
pub open spec fn spec_day_display(d: FlexDay, holiday_duration: int) -> Seq<char> {
    spec_status_str(d.status) + "   "@ + (match d.weekday {
        Some(w) => spec_weekday_name(w),
        None => "???"@,
    }) + " "@ + spec_two_digits(
        match d.date {
            Some(dt) => dt.day as nat,
            None => 0,
        },
    ) + "/"@ + spec_two_digits(
        match d.date {
            Some(dt) => dt.month as nat,
            None => 0,
        },
    ) + "   "@ + (match d.status {
        DayStatus::Worked | DayStatus::Half => spec_two_digits(d.start.hour as nat) + ":"@
            + spec_two_digits(d.start.minute as nat) + " -> "@ + spec_two_digits(
            d.end.hour as nat,
        ) + ":"@ + spec_two_digits(d.end.minute as nat) + " - "@ + spec_hhmm(d.pause as int)
            + " = "@ + spec_hhmm(spec_total_minutes(d, holiday_duration)),
        DayStatus::Weekend => "--:-- -> --:-- - --:-- = --:--"@,
        DayStatus::Holiday | DayStatus::Sick => "--:-- -> --:-- - --:-- = "@ + spec_hhmm(
            holiday_duration,
        ),
    })
}

impl FlexDay {
    /// Renders the day as its display line.
    pub fn display_line(&self, holiday_duration: i64) -> (r: String)
        requires
            day_wf(*self),
            0 <= holiday_duration <= MAX_WEEK_GOAL,
        ensures
            r@ == spec_day_display(*self, holiday_duration as int),
    {
        let mut s = self.status_str();
        s.append("   ");
        match self.weekday {
            Some(w) => s.append(weekday_to_string(w).as_str()),
            None => s.append("???"),
        }
        s.append(" ");
        let (day, month): (u64, u64) = match self.date {
            Some(dt) => (dt.day as u64, dt.month as u64),
            None => (0, 0),
        };
        s.append(u64_to_two_digits(day).as_str());
        s.append("/");
        s.append(u64_to_two_digits(month).as_str());
        s.append("   ");
        match self.status {
            DayStatus::Worked | DayStatus::Half => {
                s.append(u64_to_two_digits(self.start.hour as u64).as_str());
                s.append(":");
                s.append(u64_to_two_digits(self.start.minute as u64).as_str());
                s.append(" -> ");
                s.append(u64_to_two_digits(self.end.hour as u64).as_str());
                s.append(":");
                s.append(u64_to_two_digits(self.end.minute as u64).as_str());
                s.append(" - ");
                s.append(minutes_to_hhmm(self.pause).as_str());
                s.append(" = ");
                s.append(minutes_to_hhmm(self.total_minutes(holiday_duration)).as_str());
            },
            DayStatus::Weekend => {
                s.append("--:-- -> --:-- - --:-- = --:--");
            },
            DayStatus::Holiday | DayStatus::Sick => {
                s.append("--:-- -> --:-- - --:-- = ");
                s.append(minutes_to_hhmm(self.total_minutes(holiday_duration)).as_str());
            },
        }
        proof {
            assert(s@ =~= spec_day_display(*self, holiday_duration as int));
        }
        s
    }
}

/// The glyph of a day status.
pub open spec fn spec_status_str(s: DayStatus) -> Seq<char> {
    match s {
        DayStatus::Worked => "N"@,
        DayStatus::Holiday => "H"@,
        DayStatus::Half => "h"@,
        DayStatus::Sick => "S"@,
        DayStatus::Weekend => "W"@,
    }
}

} // verus!
