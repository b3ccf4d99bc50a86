//! The digit-wise field editor: a day's editable surface as seven ordered
//! fields, a two-position digit cursor, and the grammar that turns single
//! keystrokes into validated time-of-day and duration values.

use vstd::prelude::*;
use crate::calendar::{TimeOfDay, Weekday, time_valid};
use crate::flexday::{DayStatus, FlexDay, day_wf};
use crate::settings::MAX_PAUSE;

verus! {

/// Which half of a time or duration a keystroke lands in.
pub enum TimeField {
    Hour,
    Minute,
}

/// The seven editable fields of a day, in display order.
#[derive(Copy, Clone, Debug, PartialEq, Eq, Structural)]
pub enum Field {
    Status,
    StartHour,
    StartMinute,
    EndHour,
    EndMinute,
    PauseHour,
    PauseMinute,
}

/// The field one step to the left, stopping at the first.
pub open spec fn spec_field_left(f: Field) -> Field {
    match f {
        Field::Status => Field::Status,
        Field::StartHour => Field::Status,
        Field::StartMinute => Field::StartHour,
        Field::EndHour => Field::StartMinute,
        Field::EndMinute => Field::EndHour,
        Field::PauseHour => Field::EndMinute,
        Field::PauseMinute => Field::PauseHour,
    }
}

/// The field one step to the right, stopping at the last.
pub open spec fn spec_field_right(f: Field) -> Field {
    match f {
        Field::Status => Field::StartHour,
        Field::StartHour => Field::StartMinute,
        Field::StartMinute => Field::EndHour,
        Field::EndHour => Field::EndMinute,
        Field::EndMinute => Field::PauseHour,
        Field::PauseHour => Field::PauseMinute,
        Field::PauseMinute => Field::PauseMinute,
    }
}

/// The decimal digit a keystroke carries, if it is a digit at all; any
/// other keystroke acts as "clear".
pub open spec fn spec_char_digit(c: char) -> Option<int> {
    if '0' <= c && c <= '9' {
        Some(c as int - '0' as int)
    } else {
        None
    }
}

fn char_digit(c: char) -> (r: Option<u32>)
    ensures
        match r {
            Some(d) => spec_char_digit(c) == Some(d as int) && d <= 9,
            None => spec_char_digit(c) is None,
        },
{
    if '0' <= c && c <= '9' {
        Some(c as u32 - '0' as u32)
    } else {
        None
    }
}

/// A digit entered into one half of a time of day.  At cursor position
/// zero the digit replaces the whole field; at position one it extends the
/// field to two digits, and is rejected when the two digits would not form
/// a valid hour or minute.
pub open spec fn spec_time_digit(t: TimeOfDay, f: TimeField, d: int, idx: int) -> TimeOfDay {
    if idx == 0 {
        match f {
            TimeField::Hour => TimeOfDay { hour: d as u32, ..t },
            TimeField::Minute => TimeOfDay { minute: d as u32, ..t },
        }
    } else {
        match f {
            TimeField::Hour => if t.hour * 10 + d <= 23 {
                TimeOfDay { hour: (t.hour * 10 + d) as u32, ..t }
            } else {
                t
            },
            TimeField::Minute => if t.minute <= 5 {
                TimeOfDay { minute: (t.minute * 10 + d) as u32, ..t }
            } else {
                t
            },
        }
    }
}

/// "Clear" on one half of a time of day: at cursor position zero it drops
/// the low digit, at position one it zeroes the field.
pub open spec fn spec_time_clear(t: TimeOfDay, f: TimeField, idx: int) -> TimeOfDay {
    if idx == 0 {
        match f {
            TimeField::Hour => TimeOfDay { hour: (t.hour / 10) as u32, ..t },
            TimeField::Minute => TimeOfDay { minute: (t.minute / 10) as u32, ..t },
        }
    } else {
        match f {
            TimeField::Hour => TimeOfDay { hour: 0, ..t },
            TimeField::Minute => TimeOfDay { minute: 0, ..t },
        }
    }
}

/// One keystroke into one half of a time of day.
pub open spec fn spec_process_time(t: TimeOfDay, f: TimeField, c: char, idx: int) -> TimeOfDay {
    match spec_char_digit(c) {
        Some(d) => spec_time_digit(t, f, d, idx),
        None => spec_time_clear(t, f, idx),
    }
}

/// Feeds one keystroke — a digit or anything else for "clear" — into an
/// hour or minute field of a time of day.
pub fn process_digit_input_for_time(time: TimeOfDay, field: TimeField, c: char, digit_idx: i32) -> (r:
    TimeOfDay)
    requires
        time_valid(time),
    ensures
        r == spec_process_time(time, field, c, if digit_idx == 0 {
            0int
        } else {
            1int
        }),
        time_valid(r),
{
    match char_digit(c) {
        Some(d) => {
            if digit_idx == 0 {
                match field {
                    TimeField::Hour => TimeOfDay { hour: d, ..time },
                    TimeField::Minute => TimeOfDay { minute: d, ..time },
                }
            } else {
                match field {
                    TimeField::Hour => {
                        if time.hour * 10 + d <= 23 {
                            TimeOfDay { hour: time.hour * 10 + d, ..time }
                        } else {
                            time
                        }
                    },
                    TimeField::Minute => {
                        if time.minute <= 5 {
                            TimeOfDay { minute: time.minute * 10 + d, ..time }
                        } else {
                            time
                        }
                    },
                }
            }
        },
        None => {
            if digit_idx == 0 {
                match field {
                    TimeField::Hour => TimeOfDay { hour: time.hour / 10, ..time },
                    TimeField::Minute => TimeOfDay { minute: time.minute / 10, ..time },
                }
            } else {
                match field {
                    TimeField::Hour => TimeOfDay { hour: 0, ..time },
                    TimeField::Minute => TimeOfDay { minute: 0, ..time },
                }
            }
        },
    }
}

/// A digit entered into the hour or minute view of a duration held as
/// total minutes.  The hour half takes a second digit only up to the given
/// caps on its leading digit and on the digit itself.
pub open spec fn spec_duration_digit(
    dur: int,
    f: TimeField,
    d: int,
    idx: int,
    tens_cap: int,
    unit_cap: int,
) -> int {
    let h = dur / 60;
    let m = dur % 60;
    if idx == 0 {
        match f {
            TimeField::Hour => d * 60 + m,
            TimeField::Minute => h * 60 + d,
        }
    } else {
        match f {
            TimeField::Hour => if h <= tens_cap && d <= unit_cap {
                (h * 10 + d) * 60 + m
            } else {
                dur
            },
            TimeField::Minute => if m <= 5 {
                h * 60 + m * 10 + d
            } else {
                dur
            },
        }
    }
}

/// "Clear" on one half of a duration.
pub open spec fn spec_duration_clear(dur: int, f: TimeField, idx: int) -> int {
    let h = dur / 60;
    let m = dur % 60;
    if idx == 0 {
        match f {
            TimeField::Hour => (h / 10) * 60 + m,
            TimeField::Minute => h * 60 + m / 10,
        }
    } else {
        match f {
            TimeField::Hour => m,
            TimeField::Minute => h * 60,
        }
    }
}

/// One keystroke into one half of a duration, under the given caps for a
/// second hour digit.
pub open spec fn spec_process_duration(
    dur: int,
    f: TimeField,
    c: char,
    idx: int,
    tens_cap: int,
    unit_cap: int,
) -> int {
    match spec_char_digit(c) {
        Some(d) => spec_duration_digit(dur, f, d, idx, tens_cap, unit_cap),
        None => spec_duration_clear(dur, f, idx),
    }
}

/// Feeds one keystroke into the hour or minute view of a duration, with
/// configurable caps on a second hour digit.
pub fn process_digit_input_for_duration_capped(
    duration: i64,
    field: TimeField,
    c: char,
    digit_idx: i32,
    tens_cap: u32,
    unit_cap: u32,
) -> (r: i64)
    requires
        0 <= duration <= 604800,
        tens_cap <= 16,
        unit_cap <= 9,
    ensures
        r as int == spec_process_duration(duration as int, field, c, if digit_idx == 0 {
            0int
        } else {
            1int
        }, tens_cap as int, unit_cap as int),
        0 <= r,
        r <= duration + 59 || r <= (tens_cap * 10 + unit_cap) * 60 + 59 || r <= 599,
{
    let du = duration as u64;
    proof {
        vstd::arithmetic::div_mod::lemma_div_pos_is_pos(du as int, 60);
        vstd::arithmetic::div_mod::lemma_mod_division_less_than_divisor(du as int, 60);
        vstd::arithmetic::div_mod::lemma_div_is_ordered(du as int, 604800, 60);
        vstd::arithmetic::div_mod::lemma_fundamental_div_mod(du as int, 60);
        vstd::arithmetic::div_mod::lemma_div_pos_is_pos(du as int / 60, 10);
        vstd::arithmetic::div_mod::lemma_div_is_ordered(0, du as int / 60, 10);
        vstd::arithmetic::div_mod::lemma_div_nonincreasing(du as int / 60, 10);
        vstd::arithmetic::div_mod::lemma_div_pos_is_pos(du as int % 60, 10);
        vstd::arithmetic::div_mod::lemma_div_nonincreasing(du as int % 60, 10);
    }
    let nb_hours: u64 = du / 60;
    let min_left: u64 = du % 60;
    match char_digit(c) {
        Some(d) => {
            let d64 = d as u64;
            if digit_idx == 0 {
                match field {
                    TimeField::Hour => (d64 * 60 + min_left) as i64,
                    TimeField::Minute => (nb_hours * 60 + d64) as i64,
                }
            } else {
                match field {
                    TimeField::Hour => {
                        if nb_hours <= tens_cap as u64 && d64 <= unit_cap as u64 {
                            ((nb_hours * 10 + d64) * 60 + min_left) as i64
                        } else {
                            duration
                        }
                    },
                    TimeField::Minute => {
                        if min_left <= 5 {
                            (nb_hours * 60 + min_left * 10 + d64) as i64
                        } else {
                            duration
                        }
                    },
                }
            }
        },
        None => {
            if digit_idx == 0 {
                match field {
                    TimeField::Hour => ((nb_hours / 10) * 60 + min_left) as i64,
                    TimeField::Minute => (nb_hours * 60 + min_left / 10) as i64,
                }
            } else {
                match field {
                    TimeField::Hour => min_left as i64,
                    TimeField::Minute => (nb_hours * 60) as i64,
                }
            }
        },
    }
}

/// Feeds one keystroke into the hour or minute view of a break length,
/// with the practical caps of a break: its hour part stays below three
/// hours.
pub fn process_digit_input_for_duration(duration: i64, field: TimeField, c: char, digit_idx: i32) -> (r:
    i64)
    requires
        0 <= duration <= MAX_PAUSE,
    ensures
        r as int == spec_process_duration(duration as int, field, c, if digit_idx == 0 {
            0int
        } else {
            1int
        }, 2, 3),
        0 <= r <= MAX_PAUSE,
{
    let r = process_digit_input_for_duration_capped(duration, field, c, digit_idx, 2, 3);
    proof {
        vstd::arithmetic::div_mod::lemma_div_pos_is_pos(duration as int, 60);
        vstd::arithmetic::div_mod::lemma_mod_division_less_than_divisor(duration as int, 60);
        vstd::arithmetic::div_mod::lemma_div_is_ordered(duration as int, MAX_PAUSE as int, 60);
        vstd::arithmetic::div_mod::lemma_fundamental_div_mod(duration as int, 60);
        vstd::arithmetic::div_mod::lemma_div_nonincreasing(duration as int / 60, 10);
        vstd::arithmetic::div_mod::lemma_div_pos_is_pos(duration as int / 60, 10);
        vstd::arithmetic::div_mod::lemma_div_nonincreasing(duration as int % 60, 10);
        vstd::arithmetic::div_mod::lemma_div_pos_is_pos(duration as int % 60, 10);
    }
    r
}

/// A digit entered into a plain number: the first keystroke replaces the
/// number, the second appends; anything else leaves it unchanged.
pub open spec fn spec_process_number(nb: int, c: char, idx: int) -> int {
    match spec_char_digit(c) {
        Some(d) => if idx == 0 {
            d
        } else {
            nb * 10 + d
        },
        None => nb,
    }
}

/// Feeds one keystroke into a plain count, such as a number of days.
pub fn process_digit_input_for_number(nb: u32, c: char, digit_idx: i32) -> (r: u32)
    requires
        nb <= 1000000,
    ensures
        r as int == spec_process_number(nb as int, c, if digit_idx == 0 {
            0int
        } else {
            1int
        }),
        r <= 10000009,
{
    match char_digit(c) {
        Some(d) => {
            if digit_idx == 0 {
                d
            } else {
                nb * 10 + d
            }
        },
        None => nb,
    }
}

/// The scroll operator on a day's status.  Scrolling up moves toward
/// `Worked` and stops there; scrolling down moves toward `Sick` and stops
/// there, except that a worked weekend day falls back to `Weekend`, which
/// itself never scrolls down.
pub open spec fn spec_scroll_status(s: DayStatus, wd: Weekday, up: bool) -> DayStatus {
    if up {
        match s {
            DayStatus::Worked | DayStatus::Holiday => DayStatus::Worked,
            DayStatus::Half => DayStatus::Holiday,
            DayStatus::Sick => DayStatus::Half,
            DayStatus::Weekend => DayStatus::Worked,
        }
    } else {
        match s {
            DayStatus::Worked => if wd == Weekday::Sat || wd == Weekday::Sun {
                DayStatus::Weekend
            } else {
                DayStatus::Holiday
            },
            DayStatus::Holiday => DayStatus::Half,
            DayStatus::Half => DayStatus::Sick,
            DayStatus::Sick => DayStatus::Sick,
            DayStatus::Weekend => DayStatus::Weekend,
        }
    }
}

fn scroll_status(d: &mut FlexDay, up: bool)
    requires
        old(d).weekday is Some,
    ensures
        *final(d) == (FlexDay {
            status: spec_scroll_status(old(d).status, old(d).weekday->Some_0, up),
            ..*old(d)
        }),
{
    let wd = match d.weekday {
        Some(w) => w,
        None => Weekday::Mon,
    };
    d.status = if up {
        match d.status {
            DayStatus::Worked | DayStatus::Holiday => DayStatus::Worked,
            DayStatus::Half => DayStatus::Holiday,
            DayStatus::Sick => DayStatus::Half,
            DayStatus::Weekend => DayStatus::Worked,
        }
    } else {
        match d.status {
            DayStatus::Worked => {
                match wd {
                    Weekday::Sat | Weekday::Sun => DayStatus::Weekend,
                    _ => DayStatus::Holiday,
                }
            },
            DayStatus::Holiday => DayStatus::Half,
            DayStatus::Half => DayStatus::Sick,
            DayStatus::Sick => DayStatus::Sick,
            DayStatus::Weekend => DayStatus::Weekend,
        }
    };
}

/// A break length stepped by a whole hour or a single minute, kept within
/// its bounds.
pub open spec fn spec_step_pause(pause: int, up: bool, step: int) -> int {
    if up {
        if pause + step <= MAX_PAUSE {
            pause + step
        } else {
            MAX_PAUSE as int
        }
    } else {
        if pause - step >= 0 {
            pause - step
        } else {
            0
        }
    }
}

/// The day after one scroll gesture on one of its fields: the status
/// cycles, times move by an hour or a minute wrapping around midnight,
/// and the break moves by an hour or a minute within its bounds.
pub open spec fn spec_key_up_down(d: FlexDay, f: Field, up: bool) -> FlexDay {
    match f {
        Field::Status => FlexDay {
            status: spec_scroll_status(d.status, d.weekday->Some_0, up),
            ..d
        },
        Field::StartHour => FlexDay {
            start: if up {
                TimeOfDay { hour: ((d.start.hour + 1) % 24) as u32, ..d.start }
            } else {
                TimeOfDay { hour: ((d.start.hour + 23) % 24) as u32, ..d.start }
            },
            ..d
        },
        Field::StartMinute => FlexDay { start: spec_step_minute(d.start, up), ..d },
        Field::EndHour => FlexDay {
            end: if up {
                TimeOfDay { hour: ((d.end.hour + 1) % 24) as u32, ..d.end }
            } else {
                TimeOfDay { hour: ((d.end.hour + 23) % 24) as u32, ..d.end }
            },
            ..d
        },
        Field::EndMinute => FlexDay { end: spec_step_minute(d.end, up), ..d },
        Field::PauseHour => FlexDay { pause: spec_step_pause(d.pause as int, up, 60) as i64, ..d },
        Field::PauseMinute => FlexDay { pause: spec_step_pause(d.pause as int, up, 1) as i64, ..d },
    }
}

/// A time of day stepped by one minute, wrapping around midnight.
pub open spec fn spec_step_minute(t: TimeOfDay, up: bool) -> TimeOfDay {
    let total = if up {
        (t.spec_minutes() + 1) % 1440
    } else {
        (t.spec_minutes() + 1439) % 1440
    };
    TimeOfDay { hour: (total / 60) as u32, minute: (total % 60) as u32 }
}

/// Applies one scroll gesture to the given field of a day.
pub fn process_key_up_down(cur_field: Field, up: bool, d: &mut FlexDay)
    requires
        day_wf(*old(d)),
        cur_field == Field::Status ==> old(d).weekday is Some,
    ensures
        *final(d) == spec_key_up_down(*old(d), cur_field, up),
        day_wf(*final(d)),
{
    match cur_field {
        Field::Status => {
            scroll_status(d, up);
        },
        Field::StartHour => {
            d.start = if up {
                d.start.plus_hour()
            } else {
                d.start.minus_hour()
            };
        },
        Field::StartMinute => {
            let t = if up {
                d.start.plus_minute()
            } else {
                d.start.minus_minute()
            };
            proof {
                lemma_minutes_split(t);
            }
            d.start = t;
        },
        Field::EndHour => {
            d.end = if up {
                d.end.plus_hour()
            } else {
                d.end.minus_hour()
            };
        },
        Field::EndMinute => {
            let t = if up {
                d.end.plus_minute()
            } else {
                d.end.minus_minute()
            };
            proof {
                lemma_minutes_split(t);
            }
            d.end = t;
        },
        Field::PauseHour => {
            d.pause = if up {
                if d.pause + 60 <= MAX_PAUSE {
                    d.pause + 60
                } else {
                    MAX_PAUSE
                }
            } else {
                if d.pause >= 60 {
                    d.pause - 60
                } else {
                    0
                }
            };
        },
        Field::PauseMinute => {
            d.pause = if up {
                if d.pause + 1 <= MAX_PAUSE {
                    d.pause + 1
                } else {
                    MAX_PAUSE
                }
            } else {
                if d.pause >= 1 {
                    d.pause - 1
                } else {
                    0
                }
            };
        },
    }
}

/// A valid time of day is its own minute count split back into hour and
/// minute.
proof fn lemma_minutes_split(t: TimeOfDay)
    requires
        time_valid(t),
    ensures
        t.spec_minutes() / 60 == t.hour,
        t.spec_minutes() % 60 == t.minute,
{
    vstd::arithmetic::div_mod::lemma_fundamental_div_mod_converse_div(
        t.spec_minutes(),
        60,
        t.hour as int,
        t.minute as int,
    );
    vstd::arithmetic::div_mod::lemma_fundamental_div_mod_converse_mod(
        t.spec_minutes(),
        60,
        t.hour as int,
        t.minute as int,
    );
}

/// The day after one keystroke into one of its numeric fields.
pub open spec fn spec_digit_input(d: FlexDay, f: Field, c: char, idx: int) -> FlexDay {
    match f {
        Field::Status => d,
        Field::StartHour => FlexDay {
            start: spec_process_time(d.start, TimeField::Hour, c, idx),
            ..d
        },
        Field::StartMinute => FlexDay {
            start: spec_process_time(d.start, TimeField::Minute, c, idx),
            ..d
        },
        Field::EndHour => FlexDay { end: spec_process_time(d.end, TimeField::Hour, c, idx), ..d },
        Field::EndMinute => FlexDay {
            end: spec_process_time(d.end, TimeField::Minute, c, idx),
            ..d
        },
        Field::PauseHour => FlexDay {
            pause: spec_process_duration(d.pause as int, TimeField::Hour, c, idx, 2, 3) as i64,
            ..d
        },
        Field::PauseMinute => FlexDay {
            pause: spec_process_duration(d.pause as int, TimeField::Minute, c, idx, 2, 3) as i64,
            ..d
        },
    }
}

/// Feeds one keystroke into the given numeric field of a day.  The status
/// field takes no digit entry, only the scroll operator.
pub fn process_digit_input(cur_field: Field, c: char, digit_idx: i32, d: &mut FlexDay)
    requires
        day_wf(*old(d)),
        cur_field != Field::Status,
    ensures
        *final(d) == spec_digit_input(*old(d), cur_field, c, if digit_idx == 0 {
            0int
        } else {
            1int
        }),
        day_wf(*final(d)),
{
    match cur_field {
        Field::Status => {},
        Field::StartHour => {
            d.start = process_digit_input_for_time(d.start, TimeField::Hour, c, digit_idx);
        },
        Field::StartMinute => {
            d.start = process_digit_input_for_time(d.start, TimeField::Minute, c, digit_idx);
        },
        Field::EndHour => {
            d.end = process_digit_input_for_time(d.end, TimeField::Hour, c, digit_idx);
        },
        Field::EndMinute => {
            d.end = process_digit_input_for_time(d.end, TimeField::Minute, c, digit_idx);
        },
        Field::PauseHour => {
            d.pause = process_digit_input_for_duration(d.pause, TimeField::Hour, c, digit_idx);
        },
        Field::PauseMinute => {
            d.pause = process_digit_input_for_duration(d.pause, TimeField::Minute, c, digit_idx);
        },
    }
}

/// One gesture of an edit session.
#[derive(Copy, Clone, Debug, PartialEq)]
pub enum EditKey {
    FieldLeft,
    FieldRight,
    ScrollUp,
    ScrollDown,
    Keystroke(char),
}

/// A running edit session on one day: the selected field, the digit
/// cursor, and the day being edited.
#[derive(Copy, Clone, Debug, PartialEq)]
pub struct DayEditor {
    pub field: Field,
    pub digit_idx: i32,
    pub day: FlexDay,
}

/// A session the engine accepts: a well-formed day that carries a weekday,
/// and a cursor on one of its two positions.
pub open spec fn editor_wf(e: DayEditor) -> bool {
    &&& day_wf(e.day)
    &&& e.day.weekday is Some
    &&& e.digit_idx == 0 || e.digit_idx == 1
}

/// Whether a keystroke is accepted by a field at a cursor position:
/// "clear" and a first digit always are; a second digit only when the
/// two-digit value stays in the field's range.
pub open spec fn spec_keystroke_accepted(d: FlexDay, f: Field, c: char, idx: int) -> bool {
    match spec_char_digit(c) {
        None => true,
        Some(dig) => idx == 0 || match f {
            Field::Status => true,
            Field::StartHour => d.start.hour * 10 + dig <= 23,
            Field::StartMinute => d.start.minute <= 5,
            Field::EndHour => d.end.hour * 10 + dig <= 23,
            Field::EndMinute => d.end.minute <= 5,
            Field::PauseHour => d.pause / 60 <= 2 && dig <= 3,
            Field::PauseMinute => d.pause % 60 <= 5,
        },
    }
}

/// The session after one gesture: moving between fields saturates at the
/// ends and resets the cursor, scrolling edits the field and resets the
/// cursor, and a keystroke feeds the digit grammar, advancing the cursor
/// only when it was accepted.  Keystrokes into the status field do
/// nothing.
pub open spec fn spec_editor_step(e: DayEditor, k: EditKey) -> DayEditor {
    match k {
        EditKey::FieldLeft => DayEditor { field: spec_field_left(e.field), digit_idx: 0, ..e },
        EditKey::FieldRight => DayEditor { field: spec_field_right(e.field), digit_idx: 0, ..e },
        EditKey::ScrollUp => DayEditor {
            digit_idx: 0,
            day: spec_key_up_down(e.day, e.field, true),
            ..e
        },
        EditKey::ScrollDown => DayEditor {
            digit_idx: 0,
            day: spec_key_up_down(e.day, e.field, false),
            ..e
        },
        EditKey::Keystroke(c) => if e.field == Field::Status {
            e
        } else {
            DayEditor {
                digit_idx: if spec_keystroke_accepted(e.day, e.field, c, e.digit_idx as int) {
                    (1 - e.digit_idx) as i32
                } else {
                    e.digit_idx
                },
                day: spec_digit_input(e.day, e.field, c, e.digit_idx as int),
                ..e
            }
        },
    }
}

impl DayEditor {
    /// Opens a session on a day, on the given field, with the cursor on
    /// the first position.
    pub fn open(day: FlexDay, field: Field) -> (r: DayEditor)
        requires
            day_wf(day),
            day.weekday is Some,
        ensures
            r == (DayEditor { field, digit_idx: 0, day }),
            editor_wf(r),
    {
        DayEditor { field, digit_idx: 0, day }
    }

    /// Applies one gesture to the session.
    pub fn handle_key(&mut self, k: EditKey)
        requires
            editor_wf(*old(self)),
        ensures
            editor_wf(*final(self)),
            *final(self) == spec_editor_step(*old(self), k),
    {
        match k {
            EditKey::FieldLeft => {
                self.digit_idx = 0;
                self.field = field_left(self.field);
            },
            EditKey::FieldRight => {
                self.digit_idx = 0;
                self.field = field_right(self.field);
            },
            EditKey::ScrollUp => {
                self.digit_idx = 0;
                process_key_up_down(self.field, true, &mut self.day);
            },
            EditKey::ScrollDown => {
                self.digit_idx = 0;
                process_key_up_down(self.field, false, &mut self.day);
            },
            EditKey::Keystroke(c) => {
                let is_status = match self.field {
                    Field::Status => true,
                    _ => false,
                };
                if !is_status {
                    let accepted = keystroke_accepted(&self.day, self.field, c, self.digit_idx);
                    process_digit_input(self.field, c, self.digit_idx, &mut self.day);
                    if accepted {
                        self.digit_idx = 1 - self.digit_idx;
                    }
                }
            },
        }
    }
}

fn field_left(f: Field) -> (r: Field)
    ensures
        r == spec_field_left(f),
{
    match f {
        Field::Status => Field::Status,
        Field::StartHour => Field::Status,
        Field::StartMinute => Field::StartHour,
        Field::EndHour => Field::StartMinute,
        Field::EndMinute => Field::EndHour,
        Field::PauseHour => Field::EndMinute,
        Field::PauseMinute => Field::PauseHour,
    }
}

fn field_right(f: Field) -> (r: Field)
    ensures
        r == spec_field_right(f),
{
    match f {
        Field::Status => Field::StartHour,
        Field::StartHour => Field::StartMinute,
        Field::StartMinute => Field::EndHour,
        Field::EndHour => Field::EndMinute,
        Field::EndMinute => Field::PauseHour,
        Field::PauseHour => Field::PauseMinute,
        Field::PauseMinute => Field::PauseMinute,
    }
}

fn keystroke_accepted(d: &FlexDay, f: Field, c: char, digit_idx: i32) -> (r: bool)
    requires
        day_wf(*d),
    ensures
        r == spec_keystroke_accepted(*d, f, c, if digit_idx == 0 {
            0int
        } else {
            1int
        }),
{
    proof {
        vstd::arithmetic::div_mod::lemma_div_pos_is_pos(d.pause as int, 60);
        vstd::arithmetic::div_mod::lemma_div_is_ordered(d.pause as int, MAX_PAUSE as int, 60);
        vstd::arithmetic::div_mod::lemma_mod_division_less_than_divisor(d.pause as int, 60);
    }
    match char_digit(c) {
        None => true,
        Some(dig) => digit_idx == 0 || match f {
            Field::Status => true,
            Field::StartHour => d.start.hour * 10 + dig <= 23,
            Field::StartMinute => d.start.minute <= 5,
            Field::EndHour => d.end.hour * 10 + dig <= 23,
            Field::EndMinute => d.end.minute <= 5,
            Field::PauseHour => (d.pause as u64) / 60 <= 2 && dig <= 3,
            Field::PauseMinute => (d.pause as u64) % 60 <= 5,
        },
    }
}

/// The field an edit session opens on: the status for a day not worked,
/// otherwise the start minute early in the day or for a day ahead, and the
/// end minute later on.
pub open spec fn spec_initial_edit_field(
    status: DayStatus,
    day_in_future: bool,
    before_noon: bool,
) -> Field {
    match status {
        DayStatus::Weekend | DayStatus::Sick | DayStatus::Holiday => Field::Status,
        _ => if day_in_future || before_noon {
            Field::StartMinute
        } else {
            Field::EndMinute
        },
    }
}

/// Picks the field an edit session opens on.
pub fn initial_edit_field(status: DayStatus, day_in_future: bool, before_noon: bool) -> (r: Field)
    ensures
        r == spec_initial_edit_field(status, day_in_future, before_noon),
{
    match status {
        DayStatus::Weekend | DayStatus::Sick | DayStatus::Holiday => Field::Status,
        _ => if day_in_future || before_noon {
            Field::StartMinute
        } else {
            Field::EndMinute
        },
    }
}

} // verus!
