//! A month of the display grid: whole weeks covering the calendar month,
//! the running balance against the weekly goal, and the lookups and
//! updates the editor performs on single days.

use vstd::prelude::*;
use crate::calendar::{
    Date, RATA_MAX, date_valid, find_first_monday_of_grid, find_last_sunday_for, date_rata,
    lemma_grid_shape, lemma_plus_days_ok, spec_grid_end, spec_grid_start, spec_plus_days,
    spec_rata, spec_weekday_of, wd_index, weekday_of_index, Weekday,
};
use crate::flexday::{DayStatus, FlexDay, day_wf, spec_day_status_for, spec_total_minutes};
use crate::flexweek::{FlexWeek, days_wf, spec_days_total, week_wf};
use crate::settings::{
    MAX_WEEK_GOAL, Settings, settings_wf, spec_default_day_settings,
};

verus! {

/// A calendar month aligned to whole weeks.
#[derive(Clone, Debug, PartialEq)]
pub struct FlexMonth {
    pub weeks: Vec<FlexWeek>,
    pub year: i32,
    pub month: u32,
    /// Weekly working-time target, in minutes.
    pub one_week_goal: i64,
    /// Minutes ahead of or behind the target, over the whole grid.
    pub balance: i64,
}

/// A month the engine accepts: four or five well-formed weeks over a month
/// within the year range, with a bounded goal.
pub open spec fn month_wf(m: FlexMonth) -> bool {
    &&& 1 <= m.month <= 12
    &&& crate::calendar::MIN_YEAR <= m.year <= crate::calendar::MAX_YEAR - 1
    &&& 4 <= m.weeks@.len() <= 5
    &&& forall|w: int| 0 <= w < m.weeks@.len() ==> week_wf(#[trigger] m.weeks@[w])
    &&& 0 <= m.one_week_goal <= MAX_WEEK_GOAL
}

/// Minutes a run of weeks contributes in total.
pub open spec fn spec_weeks_total(s: Seq<FlexWeek>, holiday_duration: int) -> int
    decreases s.len(),
{
    if s.len() == 0 {
        0
    } else {
        spec_weeks_total(s.drop_last(), holiday_duration) + spec_days_total(
            s.last().days@,
            holiday_duration,
        )
    }
}

/// The balance a month should carry: its total against the goal for as
/// many weeks as the grid has.
pub open spec fn spec_balance(m: FlexMonth, holiday_duration: int) -> int {
    spec_weeks_total(m.weeks@, holiday_duration) - m.one_week_goal * m.weeks@.len()
}

/// The day record grid construction puts `k` days after the grid start.
pub open spec fn spec_month_day(settings: Settings, start: Date, k: int) -> FlexDay {
    let dt = spec_plus_days(start, k as nat);
    FlexDay {
        date: Some(dt),
        weekday: Some(spec_weekday_of(dt)),
        start: spec_default_day_settings(settings, dt).start,
        end: spec_default_day_settings(settings, dt).end,
        pause: spec_default_day_settings(settings, dt).pause,
        status: spec_day_status_for(spec_weekday_of(dt)),
    }
}

/// Every day of a freshly built month, by its week and position: the date
/// runs along the grid, and the status comes from the weekday alone.
pub open spec fn month_freshly_built(m: FlexMonth, settings: Settings) -> bool {
    let start = spec_grid_start(m.year as int, m.month as int);
    forall|w: int, i: int|
        0 <= w < m.weeks@.len() && 0 <= i < 7 ==> (#[trigger] m.weeks@[w].days@[i])
            == spec_month_day(settings, start, 7 * w + i)
}

/// Weekdays along a grid: `k` days after a Monday the weekday index is
/// `k` modulo 7.
pub proof fn lemma_grid_day_weekday(start: Date, k: int)
    requires
        date_valid(start),
        wd_index(start) == 0,
        0 <= k,
        spec_rata(start) + k <= RATA_MAX,
    ensures
        wd_index(spec_plus_days(start, k as nat)) == k % 7,
        date_valid(spec_plus_days(start, k as nat)),
{
    lemma_plus_days_ok(start, k as nat);
    let x = spec_rata(start) + 2;
    vstd::arithmetic::div_mod::lemma_fundamental_div_mod(x, 7);
    vstd::arithmetic::div_mod::lemma_mod_division_less_than_divisor(x, 7);
    // x is a multiple of 7, so adding k shifts the remainder to k % 7.
    vstd::arithmetic::div_mod::lemma_mod_multiples_vanish(x / 7, k, 7);
}

/// Sum the contributions of a run of weeks.
pub fn sum_weeks(weeks: &Vec<FlexWeek>, holiday_duration: i64) -> (r: i64)
    requires
        forall|w: int| 0 <= w < weeks@.len() ==> week_wf(#[trigger] weeks@[w]),
        0 <= holiday_duration <= MAX_WEEK_GOAL,
        weeks@.len() <= 6,
    ensures
        r as int == spec_weeks_total(weeks@, holiday_duration as int),
        -121000 <= r <= 424000,
{
    let mut acc: i64 = 0;
    let mut w: usize = 0;
    proof {
        assert(weeks@.subrange(0, 0) =~= Seq::<FlexWeek>::empty());
    }
    while w < weeks.len()
        invariant
            0 <= w <= weeks@.len(),
            weeks@.len() <= 6,
            forall|j: int| 0 <= j < weeks@.len() ==> week_wf(#[trigger] weeks@[j]),
            0 <= holiday_duration <= MAX_WEEK_GOAL,
            acc as int == spec_weeks_total(weeks@.subrange(0, w as int), holiday_duration as int),
            -20153 * (w as int) <= acc as int <= 70560 * (w as int),
        decreases weeks@.len() - w,
    {
        proof {
            assert(weeks@.subrange(0, w + 1).drop_last() =~= weeks@.subrange(0, w as int));
            assert(weeks@.subrange(0, w + 1).last() == weeks@[w as int]);
            crate::flexweek::lemma_days_total_bounds(
                weeks@[w as int].days@,
                holiday_duration as int,
            );
        }
        let wt = weeks[w].total_minutes(holiday_duration);
        proof {
            assert(-20153 <= wt <= 70560);
            assert((-20153) * ((w + 1) as int) <= acc + wt <= 70560 * ((w + 1) as int))
                by (nonlinear_arith)
                requires
                    (-20153) * (w as int) <= acc as int <= 70560 * (w as int),
                    -20153 <= wt <= 70560,
            ;
            assert(-121000 <= acc + wt <= 424000) by (nonlinear_arith)
                requires
                    (-20153) * ((w + 1) as int) <= acc + wt <= 70560 * ((w + 1) as int),
                    0 <= w < 6,
            ;
        }
        acc = acc + wt;
        w = w + 1;
    }
    proof {
        assert(weeks@.subrange(0, weeks@.len() as int) =~= weeks@);
    }
    acc
}

impl FlexMonth {
    /// Builds the month's grid fresh from the settings: whole weeks from
    /// the grid's Monday to its Sunday, each day on its schedule default,
    /// weekends marked from the weekday alone.
    pub fn new(year: i32, month: u32, settings: &Settings) -> (r: FlexMonth)
        requires
            crate::calendar::MIN_YEAR <= year <= crate::calendar::MAX_YEAR - 1,
            1 <= month <= 12,
            settings_wf(*settings),
        ensures
            month_wf(r),
            r.year == year,
            r.month == month,
            r.one_week_goal == settings.week_goal,
            r.weeks@.len() * 7 == spec_rata(spec_grid_end(year as int, month as int)) + 1
                - spec_rata(spec_grid_start(year as int, month as int)),
            month_freshly_built(r, *settings),
            r.balance as int == spec_balance(r, settings.holiday_duration as int),
    {
        let ghost yi = year as int;
        let ghost mi = month as int;
        proof {
            lemma_grid_shape(yi, mi);
        }
        let start = find_first_monday_of_grid(year, month);
        let end = find_last_sunday_for(year, month);
        let start_rata = date_rata(start);
        let end_rata = date_rata(end);
        let n_days: u32 = end_rata + 1 - start_rata;
        proof {
            assert(n_days == 28 || n_days == 35);
        }
        let n_weeks: u32 = n_days / 7;
        let mut weeks: Vec<FlexWeek> = Vec::new();
        let mut cur = start;
        let mut w: u32 = 0;
        while w < n_weeks
            invariant
                n_weeks == 4 || n_weeks == 5,
                n_days == 7 * n_weeks,
                0 <= w <= n_weeks,
                weeks@.len() == w,
                start == spec_grid_start(yi, mi),
                date_valid(start),
                wd_index(start) == 0,
                spec_rata(start) + n_days - 1 <= RATA_MAX,
                settings_wf(*settings),
                w < n_weeks ==> cur == spec_plus_days(start, (7 * w) as nat) && date_valid(cur),
                forall|w2: int, i: int|
                    0 <= w2 < w && 0 <= i < 7 ==> (#[trigger] weeks@[w2].days@[i])
                        == spec_month_day(*settings, start, 7 * w2 + i),
                forall|w2: int| 0 <= w2 < w ==> (#[trigger] weeks@[w2]).days@.len() == 7,
            decreases n_weeks - w,
        {
            let mut days: Vec<FlexDay> = Vec::new();
            let mut i: u32 = 0;
            while i < 7
                invariant
                    0 <= i <= 7,
                    days@.len() == i,
                    0 <= w < n_weeks,
                    n_weeks == 4 || n_weeks == 5,
                    n_days == 7 * n_weeks,
                    start == spec_grid_start(yi, mi),
                    date_valid(start),
                    wd_index(start) == 0,
                    spec_rata(start) + n_days - 1 <= RATA_MAX,
                    settings_wf(*settings),
                    7 * w + i < n_days ==> cur == spec_plus_days(start, (7 * w + i) as nat)
                        && date_valid(cur),
                    forall|j: int|
                        0 <= j < i ==> (#[trigger] days@[j]) == spec_month_day(
                            *settings,
                            start,
                            7 * (w as int) + j,
                        ),
                decreases 7 - i,
            {
                proof {
                    lemma_plus_days_ok(start, (7 * w + i) as nat);
                }
                let day = FlexDay::new(cur, settings);
                days.push(day);
                if 7 * w + i + 1 < n_days {
                    proof {
                        lemma_plus_days_ok(start, (7 * w + i + 1) as nat);
                    }
                    cur = cur.succ();
                }
                i = i + 1;
            }
            weeks.push(FlexWeek::new(days));
            w = w + 1;
        }
        proof {
            assert(forall|w2: int|
                0 <= w2 < n_weeks ==> week_wf(#[trigger] weeks@[w2])) by {
                assert forall|w2: int| 0 <= w2 < n_weeks implies week_wf(#[trigger] weeks@[w2]) by {
                    assert forall|i: int| 0 <= i < 7 implies day_wf(#[trigger] weeks@[w2].days@[i]) by {
                        assert(weeks@[w2].days@[i] == spec_month_day(*settings, start, 7 * w2 + i));
                        lemma_plus_days_ok(start, (7 * w2 + i) as nat);
                    }
                }
            }
        }
        let total = sum_weeks(&weeks, settings.holiday_duration);
        let goal_total = mul_goal(settings.week_goal, n_weeks as usize);
        let m = FlexMonth {
            weeks,
            year,
            month,
            one_week_goal: settings.week_goal,
            balance: total - goal_total,
        };
        m
    }
}

/// In a freshly built month every week holds exactly two weekend days:
/// its last two positions, Saturday and Sunday, and no others.
pub proof fn lemma_fresh_month_weekends(m: FlexMonth, settings: Settings)
    requires
        month_wf(m),
        month_freshly_built(m, settings),
    ensures
        forall|w: int, i: int|
            0 <= w < m.weeks@.len() && 0 <= i < 7 ==> ((#[trigger] m.weeks@[w].days@[i]).status
                == DayStatus::Weekend <==> i >= 5),
{
    let yi = m.year as int;
    let mi = m.month as int;
    let start = spec_grid_start(yi, mi);
    let first = Date { year: m.year, month: m.month, day: 1 };
    crate::calendar::lemma_grid_start_props(yi, mi);
    crate::calendar::lemma_rata_bounds(first);
    assert forall|w: int, i: int|
        0 <= w < m.weeks@.len() && 0 <= i < 7 implies ((#[trigger] m.weeks@[w].days@[i]).status
        == DayStatus::Weekend <==> i >= 5) by {
        let k = 7 * w + i;
        lemma_grid_day_weekday(start, k);
        vstd::arithmetic::div_mod::lemma_mod_multiples_vanish(w, i, 7);
        vstd::arithmetic::div_mod::lemma_small_mod(i as nat, 7);
        assert(m.weeks@[w].days@[i] == spec_month_day(settings, start, k));
        assert(wd_index(spec_plus_days(start, k as nat)) == i);
    }
}

impl FlexMonth {
    /// Minutes the whole grid's days add up to.
    pub fn total_minute(&self, holiday_duration: i64) -> (r: i64)
        requires
            month_wf(*self),
            0 <= holiday_duration <= MAX_WEEK_GOAL,
        ensures
            r as int == spec_weeks_total(self.weeks@, holiday_duration as int),
    {
        sum_weeks(&self.weeks, holiday_duration)
    }

    /// Recomputes the balance from the current day records; to be called
    /// after any day mutation, before the month is persisted.
    pub fn update_balance(&mut self, holiday_duration: i64)
        requires
            month_wf(*old(self)),
            0 <= holiday_duration <= MAX_WEEK_GOAL,
        ensures
            *final(self) == (FlexMonth {
                balance: spec_balance(*old(self), holiday_duration as int) as i64,
                ..*old(self)
            }),
            final(self).balance as int == spec_balance(*old(self), holiday_duration as int),
    {
        let total = sum_weeks(&self.weeks, holiday_duration);
        let goal_total = mul_goal(self.one_week_goal, self.weeks.len());
        self.balance = total - goal_total;
    }

    /// Finds the day carrying a date, with a copy of its week and the
    /// week's one-based number; nothing when the date lies outside the
    /// grid, which tells the caller to load the adjacent month instead.
    pub fn get_week_with_day(&self, d: Date) -> (r: Option<(FlexDay, FlexWeek, i32)>)
        requires
            month_wf(*self),
        ensures
            match r {
                None => forall|w: int|
                    0 <= w < self.weeks@.len() ==> !week_has_date(#[trigger] self.weeks@[w], d),
                Some((day, week, n)) => {
                    &&& 1 <= n <= self.weeks@.len()
                    &&& week.days@ == self.weeks@[n - 1].days@
                    &&& forall|w: int| 0 <= w < n - 1 ==> !week_has_date(#[trigger] self.weeks@[w], d)
                    &&& exists|i: int|
                        0 <= i < 7 && #[trigger] week.days@[i].date == Some(d) && day
                            == week.days@[i] && forall|j: int|
                            0 <= j < i ==> week.days@[j].date != Some(d)
                },
            },
    {
        let mut w: usize = 0;
        while w < self.weeks.len()
            invariant
                0 <= w <= self.weeks@.len(),
                month_wf(*self),
                forall|w2: int| 0 <= w2 < w ==> !week_has_date(#[trigger] self.weeks@[w2], d),
            decreases self.weeks@.len() - w,
        {
            match find_day_in_week(&self.weeks[w], d) {
                Some(i) => {
                    return Some((self.weeks[w].days[i], copy_week(&self.weeks[w]), (w + 1) as i32));
                },
                None => {},
            }
            w = w + 1;
        }
        None
    }

    /// Overwrites the day of the grid that carries the same date as the
    /// given record, handing back a copy of the updated week; nothing is
    /// changed when no day of the grid carries that date.
    #[verifier::loop_isolation(false)]
    pub fn update_day(&mut self, d: FlexDay) -> (r: Option<FlexWeek>)
        requires
            month_wf(*old(self)),
            day_wf(d),
        ensures
            month_wf(*final(self)),
            final(self).year == old(self).year && final(self).month == old(self).month
                && final(self).one_week_goal == old(self).one_week_goal && final(self).balance
                == old(self).balance,
            match r {
                None => *final(self) == *old(self) && forall|w: int|
                    0 <= w < old(self).weeks@.len() ==> !week_has_opt_date(
                        #[trigger] old(self).weeks@[w],
                        d.date,
                    ),
                Some(week) => exists|w: int, i: int|
                    {
                        &&& 0 <= w < old(self).weeks@.len() && 0 <= i < 7
                        &&& (#[trigger] old(self).weeks@[w].days@[i]).date == d.date
                        &&& forall|w2: int|
                            0 <= w2 < w ==> !week_has_opt_date(
                                #[trigger] old(self).weeks@[w2],
                                d.date,
                            )
                        &&& forall|j: int| 0 <= j < i ==> old(self).weeks@[w].days@[j].date != d.date
                        &&& final(self).weeks@.len() == old(self).weeks@.len()
                        &&& forall|w2: int|
                            0 <= w2 < old(self).weeks@.len() && w2 != w
                                ==> #[trigger] final(self).weeks@[w2] == old(self).weeks@[w2]
                        &&& final(self).weeks@[w].days@ == old(self).weeks@[w].days@.update(i, d)
                        &&& week.days@ == final(self).weeks@[w].days@
                    },
            },
    {
        let ghost orig = *self;
        let mut w: usize = 0;
        while w < self.weeks.len()
            invariant
                0 <= w <= self.weeks@.len(),
                month_wf(*self),
                *self == orig,
                day_wf(d),
                forall|w2: int| 0 <= w2 < w ==> !week_has_opt_date(#[trigger] self.weeks@[w2], d.date),
            decreases self.weeks@.len() - w,
        {
            match find_day_slot(&self.weeks[w], d.date) {
                Some(i) => {
                    self.weeks[w].days[i] = d;
                    proof {
                        assert(week_wf(self.weeks@[w as int]));
                    }
                    return Some(copy_week(&self.weeks[w]));
                },
                None => {},
            }
            w = w + 1;
        }
        None
    }
}

/// A fresh week holding the same seven days.
fn copy_week(w: &FlexWeek) -> (r: FlexWeek)
    requires
        w.days@.len() == 7,
    ensures
        r.days@ == w.days@,
{
    let mut days: Vec<FlexDay> = Vec::new();
    let mut i: usize = 0;
    while i < w.days.len()
        invariant
            0 <= i <= w.days@.len(),
            w.days@.len() == 7,
            days@ == w.days@.subrange(0, i as int),
        decreases w.days@.len() - i,
    {
        days.push(w.days[i]);
        proof {
            assert(days@ =~= w.days@.subrange(0, i + 1));
        }
        i = i + 1;
    }
    proof {
        assert(days@ =~= w.days@);
    }
    FlexWeek { days }
}

/// Finds the first day of a week whose (possibly absent) date equals the
/// given one.
fn find_day_slot(w: &FlexWeek, date: Option<Date>) -> (r: Option<usize>)
    requires
        week_wf(*w),
    ensures
        match r {
            None => !week_has_opt_date(*w, date),
            Some(i) => 0 <= i < 7 && w.days@[i as int].date == date && forall|j: int|
                0 <= j < i ==> w.days@[j].date != date,
        },
{
    let mut i: usize = 0;
    while i < w.days.len()
        invariant
            0 <= i <= w.days@.len(),
            week_wf(*w),
            forall|j: int| 0 <= j < i ==> w.days@[j].date != date,
        decreases w.days@.len() - i,
    {
        let found = match (w.days[i].date, date) {
            (Some(a), Some(b)) => a == b,
            (None, None) => true,
            _ => false,
        };
        if found {
            return Some(i);
        }
        i = i + 1;
    }
    None
}

/// Whether some day of a week carries the given date.
pub open spec fn week_has_date(w: FlexWeek, d: Date) -> bool {
    exists|i: int| 0 <= i < w.days@.len() && (#[trigger] w.days@[i]).date == Some(d)
}

/// Whether some day of a week carries the given optional date.
pub open spec fn week_has_opt_date(w: FlexWeek, d: Option<Date>) -> bool {
    exists|i: int| 0 <= i < w.days@.len() && (#[trigger] w.days@[i]).date == d
}

/// Finds the first day of a week carrying a date.
pub fn find_day_in_week(w: &FlexWeek, d: Date) -> (r: Option<usize>)
    requires
        week_wf(*w),
    ensures
        match r {
            None => !week_has_date(*w, d),
            Some(i) => 0 <= i < 7 && w.days@[i as int].date == Some(d) && forall|j: int|
                0 <= j < i ==> w.days@[j].date != Some(d),
        },
{
    let mut i: usize = 0;
    while i < w.days.len()
        invariant
            0 <= i <= w.days@.len(),
            week_wf(*w),
            forall|j: int| 0 <= j < i ==> w.days@[j].date != Some(d),
        decreases w.days@.len() - i,
    {
        let found = match w.days[i].date {
            Some(dd) => dd == d,
            None => false,
        };
        if found {
            return Some(i);
        }
        i = i + 1;
    }
    None
}

/// The dates of the sick days in a run of day records, in grid order;
/// a record without a date contributes nothing.
pub open spec fn spec_sick_of_days(s: Seq<FlexDay>) -> Seq<Date>
    decreases s.len(),
{
    if s.len() == 0 {
        Seq::empty()
    } else {
        spec_sick_of_days(s.drop_last()) + (if s.last().status == DayStatus::Sick {
            match s.last().date {
                Some(dt) => seq![dt],
                None => Seq::empty(),
            }
        } else {
            Seq::empty()
        })
    }
}

/// The dates of the sick days of a run of weeks, in grid order.
pub open spec fn spec_sick_of_weeks(s: Seq<FlexWeek>) -> Seq<Date>
    decreases s.len(),
{
    if s.len() == 0 {
        Seq::empty()
    } else {
        spec_sick_of_weeks(s.drop_last()) + spec_sick_of_days(s.last().days@)
    }
}

impl FlexMonth {
    /// The dates of the month's days marked sick, in grid order.
    pub fn get_sick_days(&self) -> (r: Vec<Date>)
        requires
            month_wf(*self),
        ensures
            r@ == spec_sick_of_weeks(self.weeks@),
    {
        let mut out: Vec<Date> = Vec::new();
        let mut w: usize = 0;
        proof {
            assert(self.weeks@.subrange(0, 0) =~= Seq::<FlexWeek>::empty());
        }
        while w < self.weeks.len()
            invariant
                0 <= w <= self.weeks@.len(),
                month_wf(*self),
                out@ == spec_sick_of_weeks(self.weeks@.subrange(0, w as int)),
            decreases self.weeks@.len() - w,
        {
            let week = &self.weeks[w];
            let mut i: usize = 0;
            proof {
                assert(week.days@.subrange(0, 0) =~= Seq::<FlexDay>::empty());
            }
            while i < week.days.len()
                invariant
                    0 <= i <= week.days@.len(),
                    week_wf(*week),
                    week == self.weeks@[w as int],
                    0 <= w < self.weeks@.len(),
                    month_wf(*self),
                    out@ == spec_sick_of_weeks(self.weeks@.subrange(0, w as int))
                        + spec_sick_of_days(week.days@.subrange(0, i as int)),
                decreases week.days@.len() - i,
            {
                proof {
                    assert(week.days@.subrange(0, i + 1).drop_last() =~= week.days@.subrange(
                        0,
                        i as int,
                    ));
                    assert(week.days@.subrange(0, i + 1).last() == week.days@[i as int]);
                }
                let d = &week.days[i];
                let is_sick = match d.status {
                    DayStatus::Sick => true,
                    _ => false,
                };
                if is_sick {
                    match d.date {
                        Some(dt) => {
                            out.push(dt);
                        },
                        None => {},
                    }
                }
                proof {
                    assert(out@ =~= spec_sick_of_weeks(self.weeks@.subrange(0, w as int))
                        + spec_sick_of_days(week.days@.subrange(0, i + 1)));
                }
                i = i + 1;
            }
            proof {
                assert(week.days@.subrange(0, week.days@.len() as int) =~= week.days@);
                assert(self.weeks@.subrange(0, w + 1).drop_last() =~= self.weeks@.subrange(
                    0,
                    w as int,
                ));
                assert(self.weeks@.subrange(0, w + 1).last() == self.weeks@[w as int]);
            }
            w = w + 1;
        }
        proof {
            assert(self.weeks@.subrange(0, self.weeks@.len() as int) =~= self.weeks@);
        }
        out
    }

    /// Marks the fixed year-end closures on a month built for the first
    /// time: January's first two grid days become holidays, and in December
    /// every still-worked day of the last grid week does.  Months other
    /// than January and December are left as they are.
    pub fn seed_new_month(&mut self)
        requires
            month_wf(*old(self)),
        ensures
            month_wf(*final(self)),
            final(self).year == old(self).year && final(self).month == old(self).month
                && final(self).one_week_goal == old(self).one_week_goal && final(self).balance
                == old(self).balance,
            final(self).weeks@.len() == old(self).weeks@.len(),
            old(self).month == 1 ==> {
                &&& final(self).weeks@[0].days@ == old(self).weeks@[0].days@.update(
                    0,
                    FlexDay { status: DayStatus::Holiday, ..old(self).weeks@[0].days@[0] },
                ).update(
                    1,
                    FlexDay { status: DayStatus::Holiday, ..old(self).weeks@[0].days@[1] },
                )
                &&& forall|w: int|
                    1 <= w < old(self).weeks@.len() ==> #[trigger] final(self).weeks@[w] == old(
                        self,
                    ).weeks@[w]
            },
            old(self).month == 12 ==> {
                let lw = old(self).weeks@.len() - 1;
                &&& forall|w: int|
                    0 <= w < lw ==> #[trigger] final(self).weeks@[w] == old(self).weeks@[w]
                &&& final(self).weeks@[lw].days@.len() == 7
                &&& forall|i: int|
                    0 <= i < 7 ==> #[trigger] final(self).weeks@[lw].days@[i] == (
                    if old(self).weeks@[lw].days@[i].status == DayStatus::Worked {
                        FlexDay { status: DayStatus::Holiday, ..old(self).weeks@[lw].days@[i] }
                    } else {
                        old(self).weeks@[lw].days@[i]
                    })
            },
            old(self).month != 1 && old(self).month != 12 ==> *final(self) == *old(self),
    {
        if self.month == 1 {
            let day0 = self.weeks[0].days[0];
            self.weeks[0].days[0] = FlexDay { status: DayStatus::Holiday, ..day0 };
            let day1 = self.weeks[0].days[1];
            self.weeks[0].days[1] = FlexDay { status: DayStatus::Holiday, ..day1 };
        } else if self.month == 12 {
            let lw = self.weeks.len() - 1;
            let mut i: usize = 0;
            #[verifier::loop_isolation(false)]
            while i < 7
                invariant
                    0 <= i <= 7,
                    self.year == old(self).year && self.month == old(self).month
                        && self.one_week_goal == old(self).one_week_goal && self.balance == old(
                        self,
                    ).balance,
                    lw == old(self).weeks@.len() - 1,
                    self.weeks@.len() == old(self).weeks@.len(),
                    forall|w: int|
                        0 <= w < lw ==> #[trigger] self.weeks@[w] == old(self).weeks@[w],
                    self.weeks@[lw as int].days@.len() == 7,
                    forall|j: int|
                        i <= j < 7 ==> #[trigger] self.weeks@[lw as int].days@[j] == old(
                            self,
                        ).weeks@[lw as int].days@[j],
                    forall|j: int|
                        0 <= j < i ==> #[trigger] self.weeks@[lw as int].days@[j] == (
                        if old(self).weeks@[lw as int].days@[j].status == DayStatus::Worked {
                            FlexDay {
                                status: DayStatus::Holiday,
                                ..old(self).weeks@[lw as int].days@[j]
                            }
                        } else {
                            old(self).weeks@[lw as int].days@[j]
                        }),
                    month_wf(*self),
                decreases 7 - i,
            {
                let d = self.weeks[lw].days[i];
                let is_worked = match d.status {
                    DayStatus::Worked => true,
                    _ => false,
                };
                if is_worked {
                    self.weeks[lw].days[i] = FlexDay { status: DayStatus::Holiday, ..d };
                    proof {
                        assert(week_wf(self.weeks@[lw as int]));
                    }
                }
                i = i + 1;
            }
        }
    }
}

/// The goal for a number of weeks, within comfortable bounds.
fn mul_goal(goal: i64, n: usize) -> (r: i64)
    requires
        0 <= goal <= MAX_WEEK_GOAL,
        n <= 6,
    ensures
        r as int == goal * n,
        0 <= r <= 60480,
{
    proof {
        assert(0 <= goal * n <= 60480) by (nonlinear_arith)
            requires
                0 <= goal <= 10080,
                0 <= n <= 6,
        ;
    }
    goal * (n as i64)
}

} // verus!
