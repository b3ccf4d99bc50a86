//! A flat integer encoding of the engine's persistent records.  Encoding
//! lays a month or a ledger out as a run of numbers; parsing validates
//! and rebuilds the record.  Parsing a record's own code rebuilds the
//! record exactly: the round trip is proved below, and the executable
//! encoder and decoder follow the specification functions it speaks of.

use vstd::prelude::*;
use crate::calendar::{
    Date, MAX_YEAR, MIN_YEAR, TimeOfDay, date_valid, index_of_weekday, spec_weekday_of,
    weekday_of_index,
};
use crate::daysoff::{DaysOff, days_off_wf, sick_days_sorted};
use crate::flexday::{DayStatus, FlexDay, day_wf};
use crate::flexmonth::{FlexMonth, month_wf};
use crate::flexweek::FlexWeek;
use crate::settings::{MAX_PAUSE, MAX_WEEK_GOAL};

verus! {

/// Code of a day status.
pub open spec fn spec_status_code(s: DayStatus) -> i64 {
    match s {
        DayStatus::Worked => 0,
        DayStatus::Holiday => 1,
        DayStatus::Half => 2,
        DayStatus::Weekend => 3,
        DayStatus::Sick => 4,
    }
}

/// The status a code stands for.
pub open spec fn spec_status_of_code(c: i64) -> DayStatus {
    if c == 0 {
        DayStatus::Worked
    } else if c == 1 {
        DayStatus::Holiday
    } else if c == 2 {
        DayStatus::Half
    } else if c == 3 {
        DayStatus::Weekend
    } else {
        DayStatus::Sick
    }
}

/// Code of one day record: twelve numbers laying out date, weekday, times,
/// break and status.
pub open spec fn spec_day_code(d: FlexDay) -> Seq<i64> {
    let (df, dy, dm, dd): (i64, i64, i64, i64) = match d.date {
        Some(dt) => (1, dt.year as i64, dt.month as i64, dt.day as i64),
        None => (0, 0, 0, 0),
    };
    let (wf, wc): (i64, i64) = match d.weekday {
        Some(w) => (1, index_of_weekday(w) as i64),
        None => (0, 0),
    };
    seq![
        df,
        dy,
        dm,
        dd,
        wf,
        wc,
        d.start.hour as i64,
        d.start.minute as i64,
        d.end.hour as i64,
        d.end.minute as i64,
        d.pause,
        spec_status_code(d.status),
    ]
}

/// Code of a run of days: their codes one after another.
pub open spec fn spec_days_code(s: Seq<FlexDay>) -> Seq<i64>
    decreases s.len(),
{
    if s.len() == 0 {
        Seq::empty()
    } else {
        spec_day_code(s.first()) + spec_days_code(s.drop_first())
    }
}

/// Code of a run of weeks: their days' codes one after another.
pub open spec fn spec_weeks_code(s: Seq<FlexWeek>) -> Seq<i64>
    decreases s.len(),
{
    if s.len() == 0 {
        Seq::empty()
    } else {
        spec_days_code(s.first().days@) + spec_weeks_code(s.drop_first())
    }
}

/// Code of a month: a five-number header — year, month, goal, balance and
/// week count — followed by the weeks.
pub open spec fn spec_month_code(m: FlexMonth) -> Seq<i64> {
    seq![
        m.year as i64,
        m.month as i64,
        m.one_week_goal,
        m.balance,
        m.weeks@.len() as i64,
    ] + spec_weeks_code(m.weeks@)
}

/// Code of a run of dates: three numbers each.
pub open spec fn spec_dates_code(s: Seq<Date>) -> Seq<i64>
    decreases s.len(),
{
    if s.len() == 0 {
        Seq::empty()
    } else {
        seq![s.first().year as i64, s.first().month as i64, s.first().day as i64]
            + spec_dates_code(s.drop_first())
    }
}

/// Code of a ledger: year, credit and journal length, then the journal.
pub open spec fn spec_days_off_code(d: DaysOff) -> Seq<i64> {
    seq![d.year as i64, d.holidays_left as i64, d.sick_days@.len() as i64] + spec_dates_code(
        d.sick_days@,
    )
}

/// Parses one day record at an offset: twelve numbers whose flags, ranges
/// and weekday-of-date consistency all check out.
pub open spec fn spec_parse_day_at(s: Seq<i64>, off: int) -> Option<FlexDay> {
    if off < 0 || off + 12 > s.len() {
        None
    } else {
        let df = s[off];
        let dy = s[off + 1];
        let dm = s[off + 2];
        let dd = s[off + 3];
        let wf = s[off + 4];
        let wc = s[off + 5];
        let sh = s[off + 6];
        let sm = s[off + 7];
        let eh = s[off + 8];
        let em = s[off + 9];
        let pa = s[off + 10];
        let st = s[off + 11];
        if !(0 <= sh <= 23 && 0 <= sm <= 59 && 0 <= eh <= 23 && 0 <= em <= 59 && 0 <= pa
            <= MAX_PAUSE && 0 <= st <= 4) {
            None
        } else if df == 1 {
            if MIN_YEAR <= dy <= MAX_YEAR && 1 <= dm <= 12 && 1 <= dd <= 31 && date_valid(
                Date { year: dy as i32, month: dm as u32, day: dd as u32 },
            ) && wf == 1 && wc == index_of_weekday(
                spec_weekday_of(Date { year: dy as i32, month: dm as u32, day: dd as u32 }),
            ) {
                let dt = Date { year: dy as i32, month: dm as u32, day: dd as u32 };
                Some(
                    FlexDay {
                        date: Some(dt),
                        weekday: Some(spec_weekday_of(dt)),
                        start: TimeOfDay { hour: sh as u32, minute: sm as u32 },
                        end: TimeOfDay { hour: eh as u32, minute: em as u32 },
                        pause: pa,
                        status: spec_status_of_code(st),
                    },
                )
            } else {
                None
            }
        } else if df == 0 && dy == 0 && dm == 0 && dd == 0 {
            if wf == 1 && 0 <= wc <= 6 {
                Some(
                    FlexDay {
                        date: None,
                        weekday: Some(weekday_of_index(wc as int)),
                        start: TimeOfDay { hour: sh as u32, minute: sm as u32 },
                        end: TimeOfDay { hour: eh as u32, minute: em as u32 },
                        pause: pa,
                        status: spec_status_of_code(st),
                    },
                )
            } else if wf == 0 && wc == 0 {
                Some(
                    FlexDay {
                        date: None,
                        weekday: None,
                        start: TimeOfDay { hour: sh as u32, minute: sm as u32 },
                        end: TimeOfDay { hour: eh as u32, minute: em as u32 },
                        pause: pa,
                        status: spec_status_of_code(st),
                    },
                )
            } else {
                None
            }
        } else {
            None
        }
    }
}

/// Parses a run of `n` day records at an offset.
pub open spec fn spec_parse_days_at(s: Seq<i64>, off: int, n: nat) -> Option<Seq<FlexDay>>
    decreases n,
{
    if n == 0 {
        Some(Seq::empty())
    } else {
        match spec_parse_day_at(s, off) {
            None => None,
            Some(d) => match spec_parse_days_at(s, off + 12, (n - 1) as nat) {
                None => None,
                Some(rest) => Some(seq![d] + rest),
            },
        }
    }
}

/// Parses a run of `n` seven-day weeks at an offset.
pub open spec fn spec_parse_weeks_at(s: Seq<i64>, off: int, n: nat) -> Option<Seq<Seq<FlexDay>>>
    decreases n,
{
    if n == 0 {
        Some(Seq::empty())
    } else {
        match spec_parse_days_at(s, off, 7) {
            None => None,
            Some(days) => match spec_parse_weeks_at(s, off + 84, (n - 1) as nat) {
                None => None,
                Some(rest) => Some(seq![days] + rest),
            },
        }
    }
}

/// The data a month's code lays out: header fields and the weeks' days.
pub open spec fn spec_parse_month(s: Seq<i64>) -> Option<(int, int, int, int, Seq<Seq<FlexDay>>)> {
    if s.len() < 5 {
        None
    } else {
        let year = s[0];
        let month = s[1];
        let goal = s[2];
        let balance = s[3];
        let n = s[4];
        if !(MIN_YEAR <= year <= MAX_YEAR - 1 && 1 <= month <= 12 && 0 <= goal <= MAX_WEEK_GOAL
            && (n == 4 || n == 5) && s.len() == 5 + 84 * n) {
            None
        } else {
            match spec_parse_weeks_at(s, 5, n as nat) {
                None => None,
                Some(ws) => Some((year as int, month as int, goal as int, balance as int, ws)),
            }
        }
    }
}

/// The parsed shape of a month: its header fields and its weeks' days.
pub open spec fn spec_month_model(m: FlexMonth) -> (int, int, int, int, Seq<Seq<FlexDay>>) {
    (
        m.year as int,
        m.month as int,
        m.one_week_goal as int,
        m.balance as int,
        Seq::new(m.weeks@.len(), |w: int| m.weeks@[w].days@),
    )
}

/// Parses a run of `n` dates at an offset, requiring them strictly
/// increasing.
pub open spec fn spec_parse_dates_at(s: Seq<i64>, off: int, n: nat) -> Option<Seq<Date>>
    decreases n,
{
    if n == 0 {
        Some(Seq::empty())
    } else if off < 0 || off + 3 > s.len() {
        None
    } else {
        let dt = Date { year: s[off] as i32, month: s[off + 1] as u32, day: s[off + 2] as u32 };
        if !(MIN_YEAR <= s[off] <= MAX_YEAR && 1 <= s[off + 1] <= 12 && 1 <= s[off + 2] <= 31
            && date_valid(dt)) {
            None
        } else {
            match spec_parse_dates_at(s, off + 3, (n - 1) as nat) {
                None => None,
                Some(rest) => Some(seq![dt] + rest),
            }
        }
    }
}

/// The data a ledger's code lays out, with the journal checked sorted.
pub open spec fn spec_parse_days_off(s: Seq<i64>) -> Option<(int, int, Seq<Date>)> {
    if s.len() < 3 {
        None
    } else {
        let year = s[0];
        let left = s[1];
        let n = s[2];
        if !(MIN_YEAR <= year <= MAX_YEAR && -1000000 <= left <= 1000000 && 0 <= n <= 1000000
            && s.len() == 3 + 3 * n) {
            None
        } else {
            match spec_parse_dates_at(s, 3, n as nat) {
                None => None,
                Some(dates) => if sick_days_sorted(dates) {
                    Some((year as int, left as int, dates))
                } else {
                    None
                },
            }
        }
    }
}

/// The parsed shape of a ledger.
pub open spec fn spec_days_off_model(d: DaysOff) -> (int, int, Seq<Date>) {
    (d.year as int, d.holidays_left as int, d.sick_days@)
}

/// Length of the code of a run of days.
proof fn lemma_days_code_len(s: Seq<FlexDay>)
    ensures
        spec_days_code(s).len() == 12 * s.len(),
    decreases s.len(),
{
    if s.len() > 0 {
        lemma_days_code_len(s.drop_first());
    }
}

/// Length of the code of a run of seven-day weeks.
proof fn lemma_weeks_code_len(s: Seq<FlexWeek>)
    requires
        forall|w: int| 0 <= w < s.len() ==> (#[trigger] s[w]).days@.len() == 7,
    ensures
        spec_weeks_code(s).len() == 84 * s.len(),
    decreases s.len(),
{
    if s.len() > 0 {
        assert(forall|w: int|
            0 <= w < s.drop_first().len() ==> (#[trigger] s.drop_first()[w]).days@.len() == 7);
        lemma_weeks_code_len(s.drop_first());
        lemma_days_code_len(s.first().days@);
    }
}

/// Length of the code of a run of dates.
proof fn lemma_dates_code_len(s: Seq<Date>)
    ensures
        spec_dates_code(s).len() == 3 * s.len(),
    decreases s.len(),
{
    if s.len() > 0 {
        lemma_dates_code_len(s.drop_first());
    }
}

/// Parsing the code of a well-formed day at its place in a larger run
/// yields that day.
proof fn lemma_parse_day_of_code(d: FlexDay, s: Seq<i64>, off: int)
    requires
        day_wf(d),
        0 <= off,
        off + 12 <= s.len(),
        s.subrange(off, off + 12) == spec_day_code(d),
    ensures
        spec_parse_day_at(s, off) == Some(d),
{
    let c = spec_day_code(d);
    assert forall|k: int| 0 <= k < 12 implies s[off + k] == c[k] by {
        assert(s.subrange(off, off + 12)[k] == s[off + k]);
    }
    match d.weekday {
        Some(w) => {
            assert(weekday_of_index(index_of_weekday(w)) == w);
        },
        None => {},
    }
    assert(spec_status_of_code(spec_status_code(d.status)) == d.status);
}

/// Parsing the code of a run of well-formed days yields those days.
proof fn lemma_parse_days_of_code(days: Seq<FlexDay>, s: Seq<i64>, off: int)
    requires
        forall|i: int| 0 <= i < days.len() ==> day_wf(#[trigger] days[i]),
        0 <= off,
        off + 12 * days.len() <= s.len(),
        s.subrange(off, off + 12 * days.len()) == spec_days_code(days),
    ensures
        spec_parse_days_at(s, off, days.len() as nat) == Some(days),
    decreases days.len(),
{
    if days.len() > 0 {
        lemma_days_code_len(days.drop_first());
        assert(spec_day_code(days.first()) =~= s.subrange(off, off + 12)) by {
            assert(spec_days_code(days) == spec_day_code(days.first()) + spec_days_code(
                days.drop_first(),
            ));
            assert forall|k: int| 0 <= k < 12 implies s.subrange(off, off + 12)[k] == spec_day_code(
                days.first(),
            )[k] by {
                assert(s.subrange(off, off + 12 * days.len())[k] == s[off + k]);
            }
        }
        lemma_parse_day_of_code(days.first(), s, off);
        assert(s.subrange(off + 12, off + 12 + 12 * days.drop_first().len())
            =~= spec_days_code(days.drop_first())) by {
            assert forall|k: int| 0 <= k < 12 * days.drop_first().len() implies s[off + 12 + k]
                == spec_days_code(days.drop_first())[k] by {
                assert(s.subrange(off, off + 12 * days.len())[12 + k] == s[off + 12 + k]);
                assert(spec_days_code(days)[12 + k] == spec_days_code(days.drop_first())[k]);
            }
        }
        lemma_parse_days_of_code(days.drop_first(), s, off + 12);
        assert(seq![days.first()] + days.drop_first() =~= days);
    } else {
        assert(spec_parse_days_at(s, off, 0) == Some(Seq::<FlexDay>::empty()));
        assert(days =~= Seq::<FlexDay>::empty());
    }
}

/// Parsing the code of a run of well-formed weeks yields their days.
proof fn lemma_parse_weeks_of_code(weeks: Seq<FlexWeek>, s: Seq<i64>, off: int)
    requires
        forall|w: int|
            0 <= w < weeks.len() ==> crate::flexweek::week_wf(#[trigger] weeks[w]),
        0 <= off,
        off + 84 * weeks.len() <= s.len(),
        s.subrange(off, off + 84 * weeks.len()) == spec_weeks_code(weeks),
    ensures
        spec_parse_weeks_at(s, off, weeks.len() as nat) == Some(
            Seq::new(weeks.len() as nat, |w: int| weeks[w].days@),
        ),
    decreases weeks.len(),
{
    if weeks.len() > 0 {
        assert(forall|w: int|
            0 <= w < weeks.len() ==> (#[trigger] weeks[w]).days@.len() == 7);
        lemma_weeks_code_len(weeks.drop_first());
        lemma_days_code_len(weeks.first().days@);
        assert(spec_weeks_code(weeks) == spec_days_code(weeks.first().days@) + spec_weeks_code(
            weeks.drop_first(),
        ));
        assert(s.subrange(off, off + 84) =~= spec_days_code(weeks.first().days@)) by {
            assert forall|k: int| 0 <= k < 84 implies s[off + k] == spec_days_code(
                weeks.first().days@,
            )[k] by {
                assert(s.subrange(off, off + 84 * weeks.len())[k] == s[off + k]);
            }
        }
        lemma_parse_days_of_code(weeks.first().days@, s, off);
        assert(s.subrange(off + 84, off + 84 + 84 * weeks.drop_first().len())
            =~= spec_weeks_code(weeks.drop_first())) by {
            assert forall|k: int| 0 <= k < 84 * weeks.drop_first().len() implies s[off + 84 + k]
                == spec_weeks_code(weeks.drop_first())[k] by {
                assert(s.subrange(off, off + 84 * weeks.len())[84 + k] == s[off + 84 + k]);
                assert(spec_weeks_code(weeks)[84 + k] == spec_weeks_code(weeks.drop_first())[k]);
            }
        }
        lemma_parse_weeks_of_code(weeks.drop_first(), s, off + 84);
        assert(seq![weeks.first().days@] + Seq::new(
            weeks.drop_first().len() as nat,
            |w: int| weeks.drop_first()[w].days@,
        ) =~= Seq::new(weeks.len() as nat, |w: int| weeks[w].days@));
    } else {
        assert(Seq::new(0, |w: int| weeks[w].days@) =~= Seq::<Seq<FlexDay>>::empty());
    }
}

/// Round trip for months: parsing a well-formed month's own code yields
/// exactly the month's data, header and days alike.
pub proof fn lemma_month_code_round_trip(m: FlexMonth)
    requires
        month_wf(m),
    ensures
        spec_parse_month(spec_month_code(m)) == Some(spec_month_model(m)),
{
    let s = spec_month_code(m);
    lemma_weeks_code_len(m.weeks@);
    assert(s.len() == 5 + 84 * m.weeks@.len());
    assert(s.subrange(5, 5 + 84 * m.weeks@.len() as int) =~= spec_weeks_code(m.weeks@));
    lemma_parse_weeks_of_code(m.weeks@, s, 5);
}

/// Parsing the code of a run of valid dates yields those dates.
proof fn lemma_parse_dates_of_code(dates: Seq<Date>, s: Seq<i64>, off: int)
    requires
        forall|i: int| 0 <= i < dates.len() ==> date_valid(#[trigger] dates[i]),
        0 <= off,
        off + 3 * dates.len() <= s.len(),
        s.subrange(off, off + 3 * dates.len()) == spec_dates_code(dates),
    ensures
        spec_parse_dates_at(s, off, dates.len() as nat) == Some(dates),
    decreases dates.len(),
{
    if dates.len() > 0 {
        lemma_dates_code_len(dates.drop_first());
        assert(spec_dates_code(dates) == seq![
            dates.first().year as i64,
            dates.first().month as i64,
            dates.first().day as i64,
        ] + spec_dates_code(dates.drop_first()));
        assert forall|k: int| 0 <= k < 3 * dates.len() implies s[off + k] == spec_dates_code(
            dates,
        )[k] by {
            assert(s.subrange(off, off + 3 * dates.len())[k] == s[off + k]);
        }
        assert(s[off] == dates.first().year as i64 && s[off + 1] == dates.first().month as i64
            && s[off + 2] == dates.first().day as i64) by {
            assert(s.subrange(off, off + 3 * dates.len())[0] == s[off]);
            assert(s.subrange(off, off + 3 * dates.len())[1] == s[off + 1]);
            assert(s.subrange(off, off + 3 * dates.len())[2] == s[off + 2]);
        }
        assert(s.subrange(off + 3, off + 3 + 3 * dates.drop_first().len())
            =~= spec_dates_code(dates.drop_first())) by {
            assert forall|k: int| 0 <= k < 3 * dates.drop_first().len() implies s[off + 3 + k]
                == spec_dates_code(dates.drop_first())[k] by {
                assert(spec_dates_code(dates)[3 + k] == spec_dates_code(dates.drop_first())[k]);
            }
        }
        lemma_parse_dates_of_code(dates.drop_first(), s, off + 3);
        assert(seq![dates.first()] + dates.drop_first() =~= dates);
    } else {
        assert(dates =~= Seq::<Date>::empty());
    }
}

/// Round trip for ledgers: parsing a well-formed ledger's own code yields
/// exactly its data, the sorted journal included.
pub proof fn lemma_days_off_code_round_trip(d: DaysOff)
    requires
        days_off_wf(d),
        MIN_YEAR <= d.year <= MAX_YEAR,
        -1000000 <= d.holidays_left <= 1000000,
        d.sick_days@.len() < 100000,
    ensures
        spec_parse_days_off(spec_days_off_code(d)) == Some(spec_days_off_model(d)),
{
    let s = spec_days_off_code(d);
    lemma_dates_code_len(d.sick_days@);
    assert(s.len() == 3 + 3 * d.sick_days@.len());
    assert(s[0] == d.year as i64 && s[1] == d.holidays_left as i64 && s[2]
        == d.sick_days@.len() as i64);
    assert(s.subrange(3, 3 + 3 * d.sick_days@.len() as int) =~= spec_dates_code(d.sick_days@));
    lemma_parse_dates_of_code(d.sick_days@, s, 3);
    assert(spec_parse_dates_at(s, 3, d.sick_days@.len()) == Some(d.sick_days@));
}

/// Appends one day's code.
fn encode_day_into(v: &mut Vec<i64>, d: &FlexDay)
    ensures
        final(v)@ == old(v)@ + spec_day_code(*d),
{
    match d.date {
        Some(dt) => {
            v.push(1);
            v.push(dt.year as i64);
            v.push(dt.month as i64);
            v.push(dt.day as i64);
        },
        None => {
            v.push(0);
            v.push(0);
            v.push(0);
            v.push(0);
        },
    }
    match d.weekday {
        Some(w) => {
            v.push(1);
            v.push(crate::calendar::num_days_from_monday(w) as i64);
        },
        None => {
            v.push(0);
            v.push(0);
        },
    }
    v.push(d.start.hour as i64);
    v.push(d.start.minute as i64);
    v.push(d.end.hour as i64);
    v.push(d.end.minute as i64);
    v.push(d.pause);
    let sc: i64 = match d.status {
        DayStatus::Worked => 0,
        DayStatus::Holiday => 1,
        DayStatus::Half => 2,
        DayStatus::Weekend => 3,
        DayStatus::Sick => 4,
    };
    v.push(sc);
    proof {
        assert(v@ =~= old(v)@ + spec_day_code(*d));
    }
}

/// Appends the codes of the days from position `i` on.
fn encode_days_from(v: &mut Vec<i64>, days: &Vec<FlexDay>, i: usize)
    requires
        i <= days@.len(),
    ensures
        final(v)@ == old(v)@ + spec_days_code(days@.subrange(i as int, days@.len() as int)),
    decreases days@.len() - i,
{
    if i < days.len() {
        encode_day_into(v, &days[i]);
        encode_days_from(v, days, i + 1);
        proof {
            let rest = days@.subrange(i as int, days@.len() as int);
            assert(rest.first() == days@[i as int]);
            assert(rest.drop_first() =~= days@.subrange(i + 1, days@.len() as int));
            assert(old(v)@ + spec_day_code(days@[i as int]) + spec_days_code(rest.drop_first())
                =~= old(v)@ + spec_days_code(rest));
        }
    } else {
        proof {
            assert(days@.subrange(i as int, days@.len() as int) =~= Seq::<FlexDay>::empty());
            assert(old(v)@ + Seq::<i64>::empty() =~= old(v)@);
        }
    }
}

/// Appends the codes of the weeks from position `w` on.
fn encode_weeks_from(v: &mut Vec<i64>, weeks: &Vec<FlexWeek>, w: usize)
    requires
        w <= weeks@.len(),
    ensures
        final(v)@ == old(v)@ + spec_weeks_code(weeks@.subrange(w as int, weeks@.len() as int)),
    decreases weeks@.len() - w,
{
    if w < weeks.len() {
        encode_days_from(v, &weeks[w].days, 0);
        proof {
            assert(weeks@[w as int].days@.subrange(0, weeks@[w as int].days@.len() as int)
                =~= weeks@[w as int].days@);
        }
        encode_weeks_from(v, weeks, w + 1);
        proof {
            let rest = weeks@.subrange(w as int, weeks@.len() as int);
            assert(rest.first() == weeks@[w as int]);
            assert(rest.drop_first() =~= weeks@.subrange(w + 1, weeks@.len() as int));
            assert(old(v)@ + spec_days_code(weeks@[w as int].days@) + spec_weeks_code(
                rest.drop_first(),
            ) =~= old(v)@ + spec_weeks_code(rest));
        }
    } else {
        proof {
            assert(weeks@.subrange(w as int, weeks@.len() as int) =~= Seq::<FlexWeek>::empty());
            assert(old(v)@ + Seq::<i64>::empty() =~= old(v)@);
        }
    }
}

/// Lays a month out as its code.
pub fn encode_month(m: &FlexMonth) -> (r: Vec<i64>)
    requires
        month_wf(*m),
    ensures
        r@ == spec_month_code(*m),
{
    let mut v: Vec<i64> = Vec::new();
    v.push(m.year as i64);
    v.push(m.month as i64);
    v.push(m.one_week_goal);
    v.push(m.balance);
    v.push(m.weeks.len() as i64);
    let ghost header = v@;
    encode_weeks_from(&mut v, &m.weeks, 0);
    proof {
        assert(m.weeks@.subrange(0, m.weeks@.len() as int) =~= m.weeks@);
        assert(header =~= seq![
            m.year as i64,
            m.month as i64,
            m.one_week_goal,
            m.balance,
            m.weeks@.len() as i64,
        ]);
        assert(v@ =~= spec_month_code(*m));
    }
    v
}

/// Lays a ledger out as its code.
pub fn encode_days_off(d: &DaysOff) -> (r: Vec<i64>)
    requires
        days_off_wf(*d),
    ensures
        r@ == spec_days_off_code(*d),
{
    let mut v: Vec<i64> = Vec::new();
    v.push(d.year as i64);
    v.push(d.holidays_left as i64);
    v.push(d.sick_days.len() as i64);
    let ghost header = v@;
    let mut i: usize = 0;
    #[verifier::loop_isolation(false)]
    while i < d.sick_days.len()
        invariant
            0 <= i <= d.sick_days@.len(),
            v@ == header + spec_dates_code(d.sick_days@.subrange(0, i as int)) || i == 0 && v@
                == header,
            v@.len() == 3 + 3 * i,
        decreases d.sick_days@.len() - i,
    {
        proof {
            if i == 0 {
                assert(spec_dates_code(d.sick_days@.subrange(0, 0)) =~= Seq::<i64>::empty());
                assert(v@ =~= header + spec_dates_code(d.sick_days@.subrange(0, 0)));
            }
        }
        let dt = d.sick_days[i];
        v.push(dt.year as i64);
        v.push(dt.month as i64);
        v.push(dt.day as i64);
        proof {
            lemma_dates_snoc(d.sick_days@, i as int);
            assert(v@ =~= header + spec_dates_code(d.sick_days@.subrange(0, i + 1)));
        }
        i = i + 1;
    }
    proof {
        if d.sick_days@.len() == 0 {
            assert(spec_dates_code(d.sick_days@.subrange(0, 0)) =~= Seq::<i64>::empty());
            assert(v@ =~= header + spec_dates_code(d.sick_days@.subrange(0, 0)));
        }
        assert(d.sick_days@.subrange(0, d.sick_days@.len() as int) =~= d.sick_days@);
        assert(v@ =~= spec_days_off_code(*d));
    }
    v
}

/// Extending a prefix of dates by one extends its code by that date's
/// three numbers.
proof fn lemma_dates_snoc(s: Seq<Date>, i: int)
    requires
        0 <= i < s.len(),
    ensures
        spec_dates_code(s.subrange(0, i + 1)) == spec_dates_code(s.subrange(0, i)) + seq![
            s[i].year as i64,
            s[i].month as i64,
            s[i].day as i64,
        ],
    decreases i,
{
    let a = s.subrange(0, i + 1);
    let b = s.subrange(0, i);
    if i == 0 {
        assert(a.drop_first() =~= Seq::<Date>::empty());
        assert(b =~= Seq::<Date>::empty());
        assert(spec_dates_code(a) =~= spec_dates_code(b) + seq![
            s[i].year as i64,
            s[i].month as i64,
            s[i].day as i64,
        ]);
    } else {
        lemma_dates_snoc(s.subrange(1, s.len() as int), i - 1);
        assert(a.first() == s[0] && b.first() == s[0]);
        assert(a.drop_first() =~= s.subrange(1, s.len() as int).subrange(0, i));
        assert(b.drop_first() =~= s.subrange(1, s.len() as int).subrange(0, i - 1));
        assert(s.subrange(1, s.len() as int)[i - 1] == s[i]);
        assert(spec_dates_code(a) =~= spec_dates_code(b) + seq![
            s[i].year as i64,
            s[i].month as i64,
            s[i].day as i64,
        ]);
    }
}

/// Reads one day record at an offset, validating it as the parser does.
fn decode_day_at(v: &Vec<i64>, off: usize) -> (r: Option<FlexDay>)
    ensures
        match r {
            Some(d) => day_wf(d) && spec_parse_day_at(v@, off as int) == Some(d),
            None => spec_parse_day_at(v@, off as int) is None,
        },
{
    if off > v.len() || v.len() - off < 12 {
        return None;
    }
    let df = v[off];
    let dy = v[off + 1];
    let dm = v[off + 2];
    let dd = v[off + 3];
    let wf = v[off + 4];
    let wc = v[off + 5];
    let sh = v[off + 6];
    let sm = v[off + 7];
    let eh = v[off + 8];
    let em = v[off + 9];
    let pa = v[off + 10];
    let st = v[off + 11];
    if !(0 <= sh && sh <= 23 && 0 <= sm && sm <= 59 && 0 <= eh && eh <= 23 && 0 <= em && em <= 59
        && 0 <= pa && pa <= MAX_PAUSE && 0 <= st && st <= 4) {
        return None;
    }
    let start = TimeOfDay { hour: sh as u32, minute: sm as u32 };
    let end = TimeOfDay { hour: eh as u32, minute: em as u32 };
    let status = status_from_code(st);
    if df == 1 {
        if !(MIN_YEAR as i64 <= dy && dy <= MAX_YEAR as i64 && 1 <= dm && dm <= 12 && 1 <= dd
            && dd <= 31) {
            return None;
        }
        match Date::from_ymd_opt(dy as i32, dm as u32, dd as u32) {
            None => None,
            Some(dt) => {
                let wd = dt.weekday();
                if wf == 1 && wc == crate::calendar::num_days_from_monday(wd) as i64 {
                    Some(
                        FlexDay {
                            date: Some(dt),
                            weekday: Some(wd),
                            start,
                            end,
                            pause: pa,
                            status,
                        },
                    )
                } else {
                    None
                }
            },
        }
    } else if df == 0 && dy == 0 && dm == 0 && dd == 0 {
        if wf == 1 && 0 <= wc && wc <= 6 {
            let wd = crate::calendar::weekday_from_index(wc as u32);
            Some(FlexDay { date: None, weekday: Some(wd), start, end, pause: pa, status })
        } else if wf == 0 && wc == 0 {
            Some(FlexDay { date: None, weekday: None, start, end, pause: pa, status })
        } else {
            None
        }
    } else {
        None
    }
}

/// The status a code stands for.
fn status_from_code(c: i64) -> (r: DayStatus)
    ensures
        r == spec_status_of_code(c),
{
    if c == 0 {
        DayStatus::Worked
    } else if c == 1 {
        DayStatus::Holiday
    } else if c == 2 {
        DayStatus::Half
    } else if c == 3 {
        DayStatus::Weekend
    } else {
        DayStatus::Sick
    }
}

/// Reads `n` day records at an offset.
fn decode_days_from(v: &Vec<i64>, off: usize, n: u32) -> (r: Option<Vec<FlexDay>>)
    requires
        off + 12 * n <= usize::MAX,
    ensures
        match r {
            Some(days) => {
                &&& days@.len() == n
                &&& forall|i: int| 0 <= i < days@.len() ==> day_wf(#[trigger] days@[i])
                &&& spec_parse_days_at(v@, off as int, n as nat) == Some(days@)
            },
            None => spec_parse_days_at(v@, off as int, n as nat) is None,
        },
    decreases n,
{
    if n == 0 {
        let empty: Vec<FlexDay> = Vec::new();
        proof {
            assert(empty@ =~= Seq::<FlexDay>::empty());
        }
        Some(empty)
    } else {
        match decode_day_at(v, off) {
            None => None,
            Some(d) => {
                match decode_days_from(v, off + 12, n - 1) {
                    None => None,
                    Some(mut rest) => {
                        let ghost rest0 = rest@;
                        let mut out: Vec<FlexDay> = Vec::new();
                        out.push(d);
                        out.append(&mut rest);
                        proof {
                            assert(out@ =~= seq![d] + rest0);
                        }
                        Some(out)
                    },
                }
            },
        }
    }
}

/// Reads `n` seven-day weeks at an offset.
fn decode_weeks_from(v: &Vec<i64>, off: usize, n: u32) -> (r: Option<Vec<FlexWeek>>)
    requires
        off + 84 * n <= usize::MAX,
    ensures
        match r {
            Some(weeks) => {
                &&& weeks@.len() == n
                &&& forall|w: int|
                    0 <= w < weeks@.len() ==> crate::flexweek::week_wf(#[trigger] weeks@[w])
                &&& spec_parse_weeks_at(v@, off as int, n as nat) == Some(
                    Seq::new(n as nat, |w: int| weeks@[w].days@),
                )
            },
            None => spec_parse_weeks_at(v@, off as int, n as nat) is None,
        },
    decreases n,
{
    if n == 0 {
        let empty: Vec<FlexWeek> = Vec::new();
        proof {
            assert(Seq::new(0, |w: int| empty@[w].days@) =~= Seq::<Seq<FlexDay>>::empty());
        }
        Some(empty)
    } else {
        match decode_days_from(v, off, 7) {
            None => None,
            Some(days) => {
                let week = FlexWeek { days };
                match decode_weeks_from(v, off + 84, n - 1) {
                    None => None,
                    Some(mut rest) => {
                        let ghost rest0 = rest@;
                        let mut out: Vec<FlexWeek> = Vec::new();
                        out.push(week);
                        out.append(&mut rest);
                        proof {
                            assert(out@ =~= seq![week] + rest0);
                            assert(seq![week.days@] + Seq::new(
                                rest0.len(),
                                |w: int| rest0[w].days@,
                            ) =~= Seq::new(n as nat, |w: int| out@[w].days@));
                        }
                        Some(out)
                    },
                }
            },
        }
    }
}

/// Rebuilds a month from its code; nothing comes back unless the whole
/// code checks out as the parser demands.
pub fn decode_month(v: &Vec<i64>) -> (r: Option<FlexMonth>)
    ensures
        match r {
            Some(m) => month_wf(m) && spec_parse_month(v@) == Some(spec_month_model(m)),
            None => spec_parse_month(v@) is None,
        },
{
    if v.len() < 5 {
        return None;
    }
    let year = v[0];
    let month = v[1];
    let goal = v[2];
    let balance = v[3];
    let n = v[4];
    if !(MIN_YEAR as i64 <= year && year <= MAX_YEAR as i64 - 1 && 1 <= month && month <= 12 && 0
        <= goal && goal <= MAX_WEEK_GOAL && (n == 4 || n == 5)) {
        return None;
    }
    let q: usize = (v.len() - 5) / 84;
    let rem: usize = (v.len() - 5) % 84;
    proof {
        vstd::arithmetic::div_mod::lemma_fundamental_div_mod(v@.len() - 5, 84);
        vstd::arithmetic::div_mod::lemma_mod_division_less_than_divisor(v@.len() - 5, 84);
        vstd::arithmetic::div_mod::lemma_div_pos_is_pos(v@.len() - 5, 84);
        if v@.len() == 5 + 84 * n {
            vstd::arithmetic::div_mod::lemma_fundamental_div_mod_converse_div(
                v@.len() - 5,
                84,
                n as int,
                0,
            );
            vstd::arithmetic::div_mod::lemma_fundamental_div_mod_converse_mod(
                v@.len() - 5,
                84,
                n as int,
                0,
            );
        }
    }
    if !(rem == 0 && q <= u32::MAX as usize && n == q as i64) {
        return None;
    }
    match decode_weeks_from(v, 5, n as u32) {
        None => None,
        Some(weeks) => {
            let m = FlexMonth {
                weeks,
                year: year as i32,
                month: month as u32,
                one_week_goal: goal,
                balance,
            };
            proof {
                assert(Seq::new(m.weeks@.len(), |w: int| m.weeks@[w].days@) =~= Seq::new(
                    n as nat,
                    |w: int| m.weeks@[w].days@,
                ));
            }
            Some(m)
        },
    }
}

/// Whether every adjacent pair of a run of dates is strictly increasing;
/// by transitivity the whole run then is.
proof fn lemma_sorted_from_adjacent(s: Seq<Date>)
    requires
        forall|k: int|
            0 <= k < s.len() - 1 ==> crate::calendar::spec_date_le(#[trigger] s[k], s[k + 1])
                && s[k] != s[k + 1],
    ensures
        sick_days_sorted(s),
{
    assert forall|i: int, j: int| 0 <= i < j < s.len() implies crate::calendar::spec_date_le(
        #[trigger] s[i],
        #[trigger] s[j],
    ) && s[i] != s[j] by {
        lemma_lt_span(s, i, j);
    }
}

/// A strictly increasing chain carries order across any span.
proof fn lemma_lt_span(s: Seq<Date>, i: int, j: int)
    requires
        forall|k: int|
            0 <= k < s.len() - 1 ==> crate::calendar::spec_date_le(#[trigger] s[k], s[k + 1])
                && s[k] != s[k + 1],
        0 <= i < j < s.len(),
    ensures
        crate::calendar::spec_date_le(s[i], s[j]) && s[i] != s[j],
    decreases j - i,
{
    if j > i + 1 {
        lemma_lt_span(s, i, j - 1);
        assert(crate::calendar::spec_date_le(s[j - 1], s[j]) && s[j - 1] != s[j]);
    }
}

/// Reads `n` dates at an offset, checking each valid and the run strictly
/// increasing.
fn decode_dates_from(v: &Vec<i64>, off: usize, n: u32) -> (r: Option<Vec<Date>>)
    requires
        off + 3 * n <= usize::MAX,
    ensures
        match r {
            Some(dates) => {
                &&& dates@.len() == n
                &&& forall|i: int| 0 <= i < dates@.len() ==> date_valid(#[trigger] dates@[i])
                &&& spec_parse_dates_at(v@, off as int, n as nat) == Some(dates@)
            },
            None => spec_parse_dates_at(v@, off as int, n as nat) is None,
        },
    decreases n,
{
    if n == 0 {
        let empty: Vec<Date> = Vec::new();
        proof {
            assert(empty@ =~= Seq::<Date>::empty());
        }
        Some(empty)
    } else {
        if off > v.len() || v.len() - off < 3 {
            return None;
        }
        let dy = v[off];
        let dm = v[off + 1];
        let dd = v[off + 2];
        if !(MIN_YEAR as i64 <= dy && dy <= MAX_YEAR as i64 && 1 <= dm && dm <= 12 && 1 <= dd && dd
            <= 31) {
            return None;
        }
        match Date::from_ymd_opt(dy as i32, dm as u32, dd as u32) {
            None => None,
            Some(dt) => {
                match decode_dates_from(v, off + 3, n - 1) {
                    None => None,
                    Some(mut rest) => {
                        let ghost rest0 = rest@;
                        let mut out: Vec<Date> = Vec::new();
                        out.push(dt);
                        out.append(&mut rest);
                        proof {
                            assert(out@ =~= seq![dt] + rest0);
                        }
                        Some(out)
                    },
                }
            },
        }
    }
}

/// Rebuilds a ledger from its code; nothing comes back unless the whole
/// code checks out, the journal's order included.
pub fn decode_days_off(v: &Vec<i64>) -> (r: Option<DaysOff>)
    ensures
        match r {
            Some(d) => days_off_wf(d) && spec_parse_days_off(v@) == Some(spec_days_off_model(d)),
            None => spec_parse_days_off(v@) is None,
        },
{
    if v.len() < 3 {
        return None;
    }
    let year = v[0];
    let left = v[1];
    let n = v[2];
    if !(MIN_YEAR as i64 <= year && year <= MAX_YEAR as i64 && -1000000 <= left && left <= 1000000
        && 0 <= n && n <= 1000000) {
        return None;
    }
    let q: usize = (v.len() - 3) / 3;
    let rem: usize = (v.len() - 3) % 3;
    proof {
        vstd::arithmetic::div_mod::lemma_fundamental_div_mod(v@.len() - 3, 3);
        vstd::arithmetic::div_mod::lemma_mod_division_less_than_divisor(v@.len() - 3, 3);
        vstd::arithmetic::div_mod::lemma_div_pos_is_pos(v@.len() - 3, 3);
        if v@.len() == 3 + 3 * n {
            vstd::arithmetic::div_mod::lemma_fundamental_div_mod_converse_div(
                v@.len() - 3,
                3,
                n as int,
                0,
            );
            vstd::arithmetic::div_mod::lemma_fundamental_div_mod_converse_mod(
                v@.len() - 3,
                3,
                n as int,
                0,
            );
        }
    }
    if !(rem == 0 && q <= u32::MAX as usize && n == q as i64) {
        return None;
    }
    match decode_dates_from(v, 3, n as u32) {
        None => None,
        Some(dates) => {
            // The parser accepts only a strictly increasing journal.
            let mut k: usize = 1;
            #[verifier::loop_isolation(false)]
            while k < dates.len()
                invariant
                    1 <= k <= dates@.len() || dates@.len() == 0,
                    forall|j: int|
                        0 <= j < k - 1 ==> crate::calendar::spec_date_le(
                            #[trigger] dates@[j],
                            dates@[j + 1],
                        ) && dates@[j] != dates@[j + 1],
                decreases dates@.len() - k,
            {
                if !crate::calendar::date_lt(dates[k - 1], dates[k]) {
                    proof {
                        assert(!sick_days_sorted(dates@));
                    }
                    return None;
                }
                k = k + 1;
            }
            proof {
                lemma_sorted_from_adjacent(dates@);
            }
            Some(DaysOff { year: year as i32, holidays_left: left as i32, sick_days: dates })
        },
    }
}

} // verus!
