//! The settings editing surface: a grid of option slots — five schedule
//! rows with six time fields each, a days-off column, and the weekly
//! target row — navigated with the arrow keys and edited with the same
//! digit grammar as a day's fields.

use vstd::prelude::*;
use crate::daysoff::DaysOff;
use crate::editor::{
    TimeField, spec_process_duration, spec_process_number, spec_process_time,
    process_digit_input_for_duration, process_digit_input_for_duration_capped,
    process_digit_input_for_number, process_digit_input_for_time,
};
use crate::settings::{MAX_WEEK_GOAL, Settings, SettingsDay, settings_wf};

verus! {

/// Where the cursor stands on the settings surface: a row and a column.
/// Rows 0 to 4 are the schedule's weekdays and row 5 the weekly target;
/// columns 0 to 5 are start, end and break halves, column 6 the days-off
/// numbers, whose rows 0 to 2 are the allotment, the credit left and the
/// sick count.
#[derive(Copy, Clone, Debug, PartialEq, Eq, Structural)]
pub struct SettingsCursor {
    pub cur_idx: i32,
    pub cur_field: i32,
}

/// An arrow key on the settings surface.
#[derive(Copy, Clone, Debug, PartialEq)]
pub enum SettingsKey {
    Up,
    Down,
    Left,
    Right,
}

/// A cursor the surface accepts.
pub open spec fn cursor_wf(c: SettingsCursor) -> bool {
    &&& 0 <= c.cur_field <= 6
    &&& 0 <= c.cur_idx <= 5
    &&& c.cur_field == 6 ==> c.cur_idx <= 2
    &&& c.cur_idx == 5 ==> 4 <= c.cur_field <= 5
}

/// The cursor after one arrow key: up and down cycle through the rows of
/// the current column, left and right move across the columns wrapping
/// around, and landing on the target row pulls the column onto its two
/// duration fields.
pub open spec fn spec_cursor_step(c: SettingsCursor, k: SettingsKey) -> SettingsCursor {
    let moved = match k {
        SettingsKey::Up => SettingsCursor {
            cur_idx: if c.cur_idx <= 0 {
                if c.cur_field <= 5 {
                    4
                } else {
                    2
                }
            } else {
                (c.cur_idx - 1) as i32
            },
            ..c
        },
        SettingsKey::Down => SettingsCursor {
            cur_idx: if c.cur_field <= 5 {
                ((c.cur_idx + 1) % 6) as i32
            } else {
                ((c.cur_idx + 1) % 3) as i32
            },
            ..c
        },
        SettingsKey::Left => if c.cur_field > 0 {
            SettingsCursor { cur_field: (c.cur_field - 1) as i32, ..c }
        } else {
            SettingsCursor {
                cur_field: 6,
                cur_idx: if c.cur_idx > 2 {
                    2
                } else {
                    c.cur_idx
                },
            }
        },
        SettingsKey::Right => {
            let f = ((c.cur_field + 1) % 7) as i32;
            SettingsCursor {
                cur_field: f,
                cur_idx: if f > 5 && c.cur_idx > 2 {
                    2
                } else {
                    c.cur_idx
                },
            }
        },
    };
    // the target row only offers the two halves of the weekly goal
    if moved.cur_idx == 5 {
        SettingsCursor {
            cur_field: if moved.cur_field < 4 {
                4
            } else if moved.cur_field > 5 {
                5
            } else {
                moved.cur_field
            },
            ..moved
        }
    } else {
        moved
    }
}

/// Applies one arrow key to the cursor.
pub fn cursor_step(c: SettingsCursor, k: SettingsKey) -> (r: SettingsCursor)
    requires
        cursor_wf(c),
    ensures
        r == spec_cursor_step(c, k),
        cursor_wf(r),
{
    let moved = match k {
        SettingsKey::Up => SettingsCursor {
            cur_idx: if c.cur_idx <= 0 {
                if c.cur_field <= 5 {
                    4
                } else {
                    2
                }
            } else {
                c.cur_idx - 1
            },
            ..c
        },
        SettingsKey::Down => SettingsCursor {
            cur_idx: if c.cur_field <= 5 {
                (c.cur_idx + 1) % 6
            } else {
                (c.cur_idx + 1) % 3
            },
            ..c
        },
        SettingsKey::Left => if c.cur_field > 0 {
            SettingsCursor { cur_field: c.cur_field - 1, ..c }
        } else {
            SettingsCursor {
                cur_field: 6,
                cur_idx: if c.cur_idx > 2 {
                    2
                } else {
                    c.cur_idx
                },
            }
        },
        SettingsKey::Right => {
            let f = (c.cur_field + 1) % 7;
            SettingsCursor {
                cur_field: f,
                cur_idx: if f > 5 && c.cur_idx > 2 {
                    2
                } else {
                    c.cur_idx
                },
            }
        },
    };
    if moved.cur_idx == 5 {
        SettingsCursor {
            cur_field: if moved.cur_field < 4 {
                4
            } else if moved.cur_field > 5 {
                5
            } else {
                moved.cur_field
            },
            ..moved
        }
    } else {
        moved
    }
}

/// The schedule entry after one keystroke into one of its six fields.
pub open spec fn spec_sched_entry_edit(d: SettingsDay, field: int, c: char, idx: int) -> SettingsDay {
    if field == 0 {
        SettingsDay { start: spec_process_time(d.start, TimeField::Hour, c, idx), ..d }
    } else if field == 1 {
        SettingsDay { start: spec_process_time(d.start, TimeField::Minute, c, idx), ..d }
    } else if field == 2 {
        SettingsDay { end: spec_process_time(d.end, TimeField::Hour, c, idx), ..d }
    } else if field == 3 {
        SettingsDay { end: spec_process_time(d.end, TimeField::Minute, c, idx), ..d }
    } else if field == 4 {
        SettingsDay {
            pause: spec_process_duration(d.pause as int, TimeField::Hour, c, idx, 2, 3) as i64,
            ..d
        }
    } else {
        SettingsDay {
            pause: spec_process_duration(d.pause as int, TimeField::Minute, c, idx, 2, 3) as i64,
            ..d
        }
    }
}

/// Feeds one keystroke into the option slot under the cursor: a schedule
/// row's time or break field, the annual allotment or the credit left —
/// both counted in whole days on this surface — or one half of the weekly
/// goal, which keeps the holiday-equivalent duration at a fifth of it.
/// The sick count is read-only.
pub fn apply_settings_keystroke(
    settings: &mut Settings,
    days_off: &mut DaysOff,
    cursor: SettingsCursor,
    c: char,
    digit_idx: i32,
)
    requires
        settings_wf(*old(settings)),
        cursor_wf(cursor),
        !(cursor.cur_field == 6 && cursor.cur_idx >= 2),
        0 <= old(settings).holidays_per_year <= 2000000,
        0 <= old(days_off).holidays_left <= 2000000,
    ensures
        settings_wf(*final(settings)),
        ({
            let idx = if digit_idx == 0 {
                0int
            } else {
                1int
            };
            if cursor.cur_idx < 5 && cursor.cur_field <= 5 {
                &&& final(settings).week_sched.sched@ == old(
                    settings,
                ).week_sched.sched@.update(
                    cursor.cur_idx as int,
                    spec_sched_entry_edit(
                        old(settings).week_sched.sched@[cursor.cur_idx as int],
                        cursor.cur_field as int,
                        c,
                        idx,
                    ),
                )
                &&& final(settings).week_goal == old(settings).week_goal
                &&& final(settings).holiday_duration == old(settings).holiday_duration
                &&& final(settings).holidays_per_year == old(settings).holidays_per_year
                &&& *final(days_off) == *old(days_off)
            } else if cursor.cur_field == 6 && cursor.cur_idx == 0 {
                &&& *final(settings) == (Settings {
                    holidays_per_year: (2 * spec_process_number(
                        old(settings).holidays_per_year as int / 2,
                        c,
                        idx,
                    )) as i32,
                    ..*old(settings)
                })
                &&& *final(days_off) == *old(days_off)
            } else if cursor.cur_field == 6 && cursor.cur_idx == 1 {
                &&& *final(settings) == *old(settings)
                &&& *final(days_off) == (DaysOff {
                    holidays_left: (2 * spec_process_number(
                        old(days_off).holidays_left as int / 2,
                        c,
                        idx,
                    )) as i32,
                    ..*old(days_off)
                })
            } else {
                let goal = spec_process_duration(
                    old(settings).week_goal as int,
                    if cursor.cur_field == 4 {
                        TimeField::Hour
                    } else {
                        TimeField::Minute
                    },
                    c,
                    idx,
                    16,
                    7,
                );
                &&& *final(days_off) == *old(days_off)
                &&& *final(settings) == (if goal <= MAX_WEEK_GOAL {
                    Settings {
                        week_goal: goal as i64,
                        holiday_duration: (goal / 5) as i64,
                        ..*old(settings)
                    }
                } else {
                    *old(settings)
                })
            }
        }),
{
    if cursor.cur_idx < 5 && cursor.cur_field <= 5 {
        let row = cursor.cur_idx as usize;
        let mut d = settings.week_sched.sched[row];
        if cursor.cur_field == 0 {
            d.start = process_digit_input_for_time(d.start, TimeField::Hour, c, digit_idx);
        } else if cursor.cur_field == 1 {
            d.start = process_digit_input_for_time(d.start, TimeField::Minute, c, digit_idx);
        } else if cursor.cur_field == 2 {
            d.end = process_digit_input_for_time(d.end, TimeField::Hour, c, digit_idx);
        } else if cursor.cur_field == 3 {
            d.end = process_digit_input_for_time(d.end, TimeField::Minute, c, digit_idx);
        } else if cursor.cur_field == 4 {
            d.pause = process_digit_input_for_duration(d.pause, TimeField::Hour, c, digit_idx);
        } else {
            d.pause = process_digit_input_for_duration(d.pause, TimeField::Minute, c, digit_idx);
        }
        settings.week_sched.sched[row] = d;
    } else if cursor.cur_field == 6 {
        if cursor.cur_idx == 0 {
            let days = (settings.holidays_per_year / 2) as u32;
            settings.holidays_per_year = 2 * process_digit_input_for_number(
                days,
                c,
                digit_idx,
            ) as i32;
        } else {
            let days = (days_off.holidays_left / 2) as u32;
            days_off.holidays_left = 2 * process_digit_input_for_number(days, c, digit_idx) as i32;
        }
    } else {
        let goal = process_digit_input_for_duration_capped(
            settings.week_goal,
            if cursor.cur_field == 4 {
                TimeField::Hour
            } else {
                TimeField::Minute
            },
            c,
            digit_idx,
            16,
            7,
        );
        // an out-of-range goal is silently rejected, like any other
        // keystroke the grammar refuses
        if goal <= MAX_WEEK_GOAL {
            settings.week_goal = goal;
            settings.holiday_duration = divide_by_five(goal);
        }
    }
}

/// A nonnegative number of minutes split five ways, as for the
/// holiday-equivalent duration.
fn divide_by_five(n: i64) -> (r: i64)
    requires
        n >= 0,
    ensures
        r as int == n as int / 5,
{
    ((n as u64) / 5) as i64
}

} // verus!
