//! A display week: exactly seven day records, Monday through Sunday, and
//! the minutes they add up to.

use vstd::prelude::*;
use crate::calendar::{Weekday, weekday_of_index};
use crate::display::{minutes_to_hhmm, spec_hhmm};
use crate::flexday::{FlexDay, day_wf, spec_default_day, spec_day_status_for, spec_total_minutes};
use crate::settings::{MAX_PAUSE, MAX_WEEK_GOAL};

verus! {

/// Minutes a run of days contributes in total.
pub open spec fn spec_days_total(s: Seq<FlexDay>, holiday_duration: int) -> int
    decreases s.len(),
{
    if s.len() == 0 {
        0
    } else {
        spec_days_total(s.drop_last(), holiday_duration) + spec_total_minutes(
            s.last(),
            holiday_duration,
        )
    }
}

/// Every day of a run is well formed.
pub open spec fn days_wf(s: Seq<FlexDay>) -> bool {
    forall|i: int| 0 <= i < s.len() ==> day_wf(#[trigger] s[i])
}

/// One week of the display grid: exactly seven days, Monday first.
#[derive(Clone, Debug, PartialEq)]
pub struct FlexWeek {
    pub days: Vec<FlexDay>,
}

/// A week the engine accepts.
pub open spec fn week_wf(w: FlexWeek) -> bool {
    &&& w.days@.len() == 7
    &&& days_wf(w.days@)
}

/// A run of days contributes at least and at most these minutes a day.
pub proof fn lemma_days_total_bounds(s: Seq<FlexDay>, holiday_duration: int)
    requires
        days_wf(s),
        0 <= holiday_duration <= MAX_WEEK_GOAL,
    ensures
        s.len() * (-1440 - MAX_PAUSE) <= spec_days_total(s, holiday_duration) <= s.len()
            * MAX_WEEK_GOAL,
    decreases s.len(),
{
    if s.len() == 0 {
    } else {
        lemma_days_total_bounds(s.drop_last(), holiday_duration);
        assert(spec_total_minutes(s.last(), holiday_duration) <= MAX_WEEK_GOAL);
        assert(spec_total_minutes(s.last(), holiday_duration) >= -1440 - MAX_PAUSE) by {
            assert(s.last().end.spec_minutes() >= 0 && s.last().start.spec_minutes() >= 0);
        }
        vstd::arithmetic::mul::lemma_mul_is_distributive_add_other_way(
            -1440 - MAX_PAUSE,
            s.len() - 1,
            1,
        );
        vstd::arithmetic::mul::lemma_mul_is_distributive_add_other_way(
            MAX_WEEK_GOAL as int,
            s.len() - 1,
            1,
        );
    }
}

/// Summing one more day extends the running total.
pub proof fn lemma_days_total_push(s: Seq<FlexDay>, i: int, holiday_duration: int)
    requires
        0 <= i < s.len(),
    ensures
        spec_days_total(s.subrange(0, i + 1), holiday_duration) == spec_days_total(
            s.subrange(0, i),
            holiday_duration,
        ) + spec_total_minutes(s[i], holiday_duration),
{
    assert(s.subrange(0, i + 1).drop_last() =~= s.subrange(0, i));
    assert(s.subrange(0, i + 1).last() == s[i]);
}

/// Sum the contributions of a run of days.
pub fn sum_days(days: &Vec<FlexDay>, holiday_duration: i64) -> (r: i64)
    requires
        days_wf(days@),
        0 <= holiday_duration <= MAX_WEEK_GOAL,
        days@.len() <= 1000,
    ensures
        r as int == spec_days_total(days@, holiday_duration as int),
{
    let mut acc: i64 = 0;
    let mut i: usize = 0;
    proof {
        assert(days@.subrange(0, 0) =~= Seq::<FlexDay>::empty());
    }
    while i < days.len()
        invariant
            0 <= i <= days@.len(),
            days@.len() <= 1000,
            days_wf(days@),
            0 <= holiday_duration <= MAX_WEEK_GOAL,
            acc as int == spec_days_total(days@.subrange(0, i as int), holiday_duration as int),
            (-2879) * (i as int) <= acc as int <= 10080 * (i as int),
        decreases days@.len() - i,
    {
        proof {
            lemma_days_total_push(days@, i as int, holiday_duration as int);
        }
        let dt = days[i].total_minutes(holiday_duration);
        proof {
            assert((-2879) * ((i + 1) as int) <= acc + dt <= 10080 * ((i + 1) as int))
                by (nonlinear_arith)
                requires
                    (-2879) * (i as int) <= acc as int <= 10080 * (i as int),
                    -2879 <= dt <= 10080,
            ;
            assert(-2879000 <= acc + dt <= 10080000) by (nonlinear_arith)
                requires
                    (-2879) * ((i + 1) as int) <= acc + dt <= 10080 * ((i + 1) as int),
                    0 <= i < 1000,
            ;
        }
        acc = acc + dt;
        i = i + 1;
    }
    proof {
        assert(days@.subrange(0, days@.len() as int) =~= days@);
    }
    acc
}

impl FlexWeek {
    /// Wraps seven days as a week.
    pub fn new(days: Vec<FlexDay>) -> (r: FlexWeek)
        requires
            days@.len() == 7,
        ensures
            r.days == days,
    {
        FlexWeek { days }
    }

    /// Minutes the week's days add up to.
    pub fn total_minutes(&self, holiday_duration: i64) -> (r: i64)
        requires
            week_wf(*self),
            0 <= holiday_duration <= MAX_WEEK_GOAL,
        ensures
            r as int == spec_days_total(self.days@, holiday_duration as int),
    {
        sum_days(&self.days, holiday_duration)
    }

    /// The week's total rendered as hours and minutes.
    pub fn total_str(&self, holiday_duration: i64) -> (r: String)
        requires
            week_wf(*self),
            0 <= holiday_duration <= MAX_WEEK_GOAL,
        ensures
            r@ == spec_hhmm(spec_days_total(self.days@, holiday_duration as int)),
    {
        minutes_to_hhmm(self.total_minutes(holiday_duration))
    }
}

impl Default for FlexWeek {
    /// Seven default days, with their weekdays set Monday through Sunday,
    /// so the last two count as weekend.
    fn default() -> (r: FlexWeek)
        ensures
            week_wf(r),
            r.days@.len() == 7,
            forall|i: int|
                0 <= i < 7 ==> (#[trigger] r.days@[i]) == (FlexDay {
                    weekday: Some(weekday_of_index(i)),
                    status: spec_day_status_for(weekday_of_index(i)),
                    ..spec_default_day()
                }),
    {
        let mut days: Vec<FlexDay> = Vec::new();
        let mut i: usize = 0;
        while i < 7
            invariant
                0 <= i <= 7,
                days@.len() == i,
                forall|j: int|
                    0 <= j < i ==> (#[trigger] days@[j]) == (FlexDay {
                        weekday: Some(weekday_of_index(j)),
                        status: spec_day_status_for(weekday_of_index(j)),
                        ..spec_default_day()
                    }),
            decreases 7 - i,
        {
            let mut d = FlexDay::default();
            let wd = match i {
                0 => Weekday::Mon,
                1 => Weekday::Tue,
                2 => Weekday::Wed,
                3 => Weekday::Thu,
                4 => Weekday::Fri,
                5 => Weekday::Sat,
                _ => Weekday::Sun,
            };
            d.set_weekday(wd);
            days.push(d);
            i = i + 1;
        }
        FlexWeek { days }
    }
}

} // verus!
