//! The days-off ledger: a holiday credit measured in half-days and a
//! journal of sick days, fed by status transitions of single day records
//! and trimmed to a rolling twelve-month window.

use vstd::prelude::*;
use crate::calendar::{Date, date_valid, spec_date_le};
use crate::flexday::{DayStatus, FlexDay};
use crate::settings::Settings;

verus! {

/// The entitlement ledger of one calendar year.
#[derive(Clone, Debug, PartialEq)]
pub struct DaysOff {
    pub year: i32,
    /// Holiday credit left, in half-days; debits may drive it negative.
    pub holidays_left: i32,
    /// Dates marked sick, kept sorted and without repeats.
    pub sick_days: Vec<Date>,
}

/// Strictly increasing runs of dates: sorted, no date twice.
pub open spec fn sick_days_sorted(s: Seq<Date>) -> bool {
    forall|i: int, j: int|
        0 <= i < j < s.len() ==> spec_date_le(#[trigger] s[i], #[trigger] s[j]) && s[i] != s[j]
}

/// A ledger the engine accepts: the journal sorted and deduplicated, every
/// entry a valid date.
pub open spec fn days_off_wf(d: DaysOff) -> bool {
    &&& sick_days_sorted(d.sick_days@)
    &&& forall|i: int| 0 <= i < d.sick_days@.len() ==> date_valid(#[trigger] d.sick_days@[i])
}

/// Change of the holiday credit, in half-days, when a day's status moves
/// from `a` to `b`: bookings debit it and cancellations repay it, weekend
/// days never touch it.
pub open spec fn spec_holiday_delta(a: DayStatus, b: DayStatus) -> int {
    if a == b {
        0
    } else {
        match a {
            DayStatus::Worked => match b {
                DayStatus::Holiday => -2,
                DayStatus::Half => -1,
                _ => 0,
            },
            DayStatus::Holiday => match b {
                DayStatus::Worked | DayStatus::Weekend => 2,
                DayStatus::Half => 1,
                DayStatus::Sick => 2,
                _ => 0,
            },
            DayStatus::Half => match b {
                DayStatus::Worked | DayStatus::Weekend => 1,
                DayStatus::Holiday => -1,
                DayStatus::Sick => 1,
                _ => 0,
            },
            DayStatus::Sick => match b {
                DayStatus::Half => -1,
                DayStatus::Holiday => -2,
                _ => 0,
            },
            DayStatus::Weekend => 0,
        }
    }
}

/// The sick-day set after a status transition on a date: entering `Sick`
/// records the date, leaving `Sick` clears it, anything else leaves the
/// journal alone.  A weekend day records nothing.
pub open spec fn spec_sick_after(s: Set<Date>, a: DayStatus, b: DayStatus, date: Date) -> Set<
    Date,
> {
    if a == b {
        s
    } else if a == DayStatus::Sick {
        s.remove(date)
    } else if b == DayStatus::Sick && a != DayStatus::Weekend {
        s.insert(date)
    } else {
        s
    }
}

impl DaysOff {
    /// A fresh ledger for a year, carrying the configured allotment and an
    /// empty journal.
    pub fn new(year: i32, settings: &Settings) -> (r: DaysOff)
        ensures
            r.year == year,
            r.holidays_left == settings.holidays_per_year,
            r.sick_days@ == Seq::<Date>::empty(),
            days_off_wf(r),
    {
        DaysOff { year, holidays_left: settings.holidays_per_year, sick_days: Vec::new() }
    }

    /// How many sick days the journal holds.
    pub fn sick_days_taken(&self) -> (r: usize)
        ensures
            r == self.sick_days@.len(),
    {
        self.sick_days.len()
    }

    /// Records a sick day, keeping the journal sorted; recording a date
    /// already present changes nothing.
    #[verifier::loop_isolation(false)]
    pub fn add_sick_day(&mut self, date: Date)
        requires
            days_off_wf(*old(self)),
            date_valid(date),
            old(self).sick_days@.len() < 100000,
        ensures
            days_off_wf(*final(self)),
            final(self).year == old(self).year,
            final(self).holidays_left == old(self).holidays_left,
            final(self).sick_days@.to_set() == old(self).sick_days@.to_set().insert(date),
            old(self).sick_days@.contains(date) ==> final(self).sick_days@ == old(
                self,
            ).sick_days@,
    {
        let ghost olds = self.sick_days@;
        let mut i: usize = 0;
        while i < self.sick_days.len() && date_lt_at(&self.sick_days, i, date)
            invariant
                0 <= i <= self.sick_days@.len(),
                *self == *old(self),
                days_off_wf(*self),
                forall|j: int|
                    0 <= j < i ==> spec_date_le(#[trigger] self.sick_days@[j], date)
                        && self.sick_days@[j] != date,
            decreases self.sick_days@.len() - i,
    {
            i = i + 1;
        }
        if i < self.sick_days.len() && date_eq_at(&self.sick_days, i, date) {
            proof {
                assert(self.sick_days@.contains(date));
                assert(olds.to_set().insert(date) =~= olds.to_set());
            }
            return ;
        }
        self.sick_days.insert(i, date);
        proof {
            olds.insert_ensures(i as int, date);
            let news = self.sick_days@;
            assert(news.to_set() =~= olds.to_set().insert(date)) by {
                assert forall|x: Date| news.to_set().contains(x) implies olds.to_set().insert(
                    date,
                ).contains(x) by {
                    let k = choose|k: int| 0 <= k < news.len() && news[k] == x;
                    if k < i {
                        assert(olds[k] == x);
                    } else if k > i {
                        assert(olds[k - 1] == x);
                    }
                }
                assert forall|x: Date| olds.to_set().insert(date).contains(x) implies news.to_set()
                    .contains(x) by {
                    if x == date {
                        assert(news[i as int] == x);
                    } else {
                        let k = choose|k: int| 0 <= k < olds.len() && olds[k] == x;
                        if k < i {
                            assert(news[k] == x);
                        } else {
                            assert(news[k + 1] == x);
                        }
                    }
                }
            }
            assert(sick_days_sorted(news)) by {
                assert forall|p: int, q: int| 0 <= p < q < news.len() implies spec_date_le(
                    #[trigger] news[p],
                    #[trigger] news[q],
                ) && news[p] != news[q] by {
                    if p < i && q == i {
                        assert(news[p] == olds[p]);
                    } else if p == i && q > i {
                        assert(news[q] == olds[q - 1]);
                        // Every entry from position i on lies strictly
                        // beyond the new date.
                        assert(!(spec_date_le(olds[q - 1], date) && olds[q - 1] != date));
                    } else if p < i && q > i {
                        assert(news[p] == olds[p] && news[q] == olds[q - 1]);
                    } else if p > i && q > i {
                        assert(news[p] == olds[p - 1] && news[q] == olds[q - 1]);
                    } else {
                        assert(news[p] == olds[p] && news[q] == olds[q]);
                    }
                }
            }
        }
    }

    /// Clears a date from the journal; clearing an absent date changes
    /// nothing.
    #[verifier::loop_isolation(false)]
    pub fn remove_sick_day(&mut self, date: Date)
        requires
            days_off_wf(*old(self)),
        ensures
            days_off_wf(*final(self)),
            final(self).year == old(self).year,
            final(self).holidays_left == old(self).holidays_left,
            final(self).sick_days@.to_set() == old(self).sick_days@.to_set().remove(date),
            !old(self).sick_days@.contains(date) ==> final(self).sick_days@ == old(
                self,
            ).sick_days@,
    {
        let ghost olds = self.sick_days@;
        let mut i: usize = 0;
        while i < self.sick_days.len()
            invariant
                0 <= i <= self.sick_days@.len(),
                *self == *old(self),
                days_off_wf(*self),
                forall|j: int| 0 <= j < i ==> #[trigger] self.sick_days@[j] != date,
            decreases self.sick_days@.len() - i,
        {
            if date_eq_at(&self.sick_days, i, date) {
                self.sick_days.remove(i);
                proof {
                    olds.remove_ensures(i as int);
                    let news = self.sick_days@;
                    assert(news.to_set() =~= olds.to_set().remove(date)) by {
                        assert forall|x: Date| news.to_set().contains(x) implies olds.to_set()
                            .remove(date).contains(x) by {
                            let k = choose|k: int| 0 <= k < news.len() && news[k] == x;
                            if k < i {
                                assert(olds[k] == x);
                            } else {
                                assert(olds[k + 1] == x);
                            }
                        }
                        assert forall|x: Date| olds.to_set().remove(date).contains(x)
                            implies news.to_set().contains(x) by {
                            let k = choose|k: int| 0 <= k < olds.len() && olds[k] == x;
                            if k < i {
                                assert(news[k] == x);
                            } else {
                                assert(k != i);
                                assert(news[k - 1] == x);
                            }
                        }
                    }
                    assert(sick_days_sorted(news)) by {
                        assert forall|p: int, q: int| 0 <= p < q < news.len() implies spec_date_le(
                            #[trigger] news[p],
                            #[trigger] news[q],
                        ) && news[p] != news[q] by {
                            let p0 = if p < i {
                                p
                            } else {
                                p + 1
                            };
                            let q0 = if q < i {
                                q
                            } else {
                                q + 1
                            };
                            assert(news[p] == olds[p0] && news[q] == olds[q0]);
                        }
                    }
                }
                return ;
            }
            i = i + 1;
        }
        proof {
            assert(!olds.contains(date));
            assert(olds.to_set() =~= olds.to_set().remove(date));
        }
    }
}

impl DaysOff {
    /// Applies a day's status transition to the ledger: adjusts the
    /// holiday credit by the transition's worth and records or clears the
    /// day's date in the sick journal.  A transition to or from the same
    /// status is a no-op.
    pub fn update_days_off(&mut self, old_status: DayStatus, day: FlexDay)
        requires
            days_off_wf(*old(self)),
            -1000000 <= old(self).holidays_left <= 1000000,
            old(self).sick_days@.len() < 100000,
            (old_status != day.status && (old_status == DayStatus::Sick || (day.status
                == DayStatus::Sick && old_status != DayStatus::Weekend))) ==> match day.date {
                Some(dt) => date_valid(dt),
                None => false,
            },
        ensures
            days_off_wf(*final(self)),
            final(self).year == old(self).year,
            final(self).holidays_left == old(self).holidays_left + spec_holiday_delta(
                old_status,
                day.status,
            ),
            final(self).sick_days@.to_set() == match day.date {
                Some(dt) => spec_sick_after(
                    old(self).sick_days@.to_set(),
                    old_status,
                    day.status,
                    dt,
                ),
                None => old(self).sick_days@.to_set(),
            },
    {
        let new_status = day.status;
        if old_status == new_status {
            return ;
        }
        match old_status {
            DayStatus::Worked => match new_status {
                DayStatus::Holiday => {
                    self.holidays_left = self.holidays_left - 2;
                },
                DayStatus::Half => {
                    self.holidays_left = self.holidays_left - 1;
                },
                DayStatus::Sick => {
                    self.add_day_of(day);
                },
                DayStatus::Weekend | DayStatus::Worked => {},
            },
            DayStatus::Holiday => match new_status {
                DayStatus::Worked | DayStatus::Weekend => {
                    self.holidays_left = self.holidays_left + 2;
                },
                DayStatus::Half => {
                    self.holidays_left = self.holidays_left + 1;
                },
                DayStatus::Sick => {
                    self.holidays_left = self.holidays_left + 2;
                    self.add_day_of(day);
                },
                DayStatus::Holiday => {},
            },
            DayStatus::Half => match new_status {
                DayStatus::Worked | DayStatus::Weekend => {
                    self.holidays_left = self.holidays_left + 1;
                },
                DayStatus::Holiday => {
                    self.holidays_left = self.holidays_left - 1;
                },
                DayStatus::Sick => {
                    self.holidays_left = self.holidays_left + 1;
                    self.add_day_of(day);
                },
                DayStatus::Half => {},
            },
            DayStatus::Sick => {
                self.remove_day_of(day);
                match new_status {
                    DayStatus::Half => {
                        self.holidays_left = self.holidays_left - 1;
                    },
                    DayStatus::Holiday => {
                        self.holidays_left = self.holidays_left - 2;
                    },
                    DayStatus::Sick | DayStatus::Worked | DayStatus::Weekend => {},
                }
            },
            DayStatus::Weekend => {},
        }
    }

    /// Records the date of a day in the journal.
    fn add_day_of(&mut self, day: FlexDay)
        requires
            days_off_wf(*old(self)),
            old(self).sick_days@.len() < 100000,
            match day.date {
                Some(dt) => date_valid(dt),
                None => false,
            },
        ensures
            days_off_wf(*final(self)),
            final(self).year == old(self).year,
            final(self).holidays_left == old(self).holidays_left,
            final(self).sick_days@.to_set() == old(self).sick_days@.to_set().insert(
                day.date->Some_0,
            ),
    {
        match day.date {
            Some(dt) => self.add_sick_day(dt),
            None => {},
        }
    }

    /// Clears the date of a day from the journal.
    fn remove_day_of(&mut self, day: FlexDay)
        requires
            days_off_wf(*old(self)),
            day.date is Some,
        ensures
            days_off_wf(*final(self)),
            final(self).year == old(self).year,
            final(self).holidays_left == old(self).holidays_left,
            final(self).sick_days@.to_set() == old(self).sick_days@.to_set().remove(
                day.date->Some_0,
            ),
    {
        match day.date {
            Some(dt) => self.remove_sick_day(dt),
            None => {},
        }
    }
}

/// The journal entries falling on or after a cutoff, in order.
pub open spec fn spec_kept_from(s: Seq<Date>, limit: Date) -> Seq<Date>
    decreases s.len(),
{
    if s.len() == 0 {
        Seq::empty()
    } else {
        spec_kept_from(s.drop_last(), limit) + (if spec_date_le(limit, s.last()) {
            seq![s.last()]
        } else {
            Seq::empty()
        })
    }
}

/// Filtering a sorted journal keeps it sorted, keeps only the entries at
/// or past the cutoff, and keeps all of those.
pub proof fn lemma_kept_from(s: Seq<Date>, limit: Date)
    requires
        sick_days_sorted(s),
    ensures
        sick_days_sorted(spec_kept_from(s, limit)),
        forall|x: Date|
            spec_kept_from(s, limit).contains(x) <==> s.contains(x) && spec_date_le(limit, x),
        spec_kept_from(s, limit).len() <= s.len(),
    decreases s.len(),
{
    if s.len() > 0 {
        let dl = s.drop_last();
        assert(sick_days_sorted(dl));
        lemma_kept_from(dl, limit);
        let kept = spec_kept_from(s, limit);
        let kdl = spec_kept_from(dl, limit);
        assert forall|x: Date| kept.contains(x) implies s.contains(x) && spec_date_le(limit, x) by {
            let k = choose|k: int| 0 <= k < kept.len() && kept[k] == x;
            if k < kdl.len() {
                assert(kdl[k] == x);
                assert(dl.contains(x));
                let j = choose|j: int| 0 <= j < dl.len() && dl[j] == x;
                assert(s[j] == x);
            } else {
                assert(x == s.last());
                assert(s[s.len() - 1] == x);
            }
        }
        assert forall|x: Date| s.contains(x) && spec_date_le(limit, x) implies kept.contains(
            x,
        ) by {
            let k = choose|k: int| 0 <= k < s.len() && s[k] == x;
            if k < s.len() - 1 {
                assert(dl[k] == x);
                assert(kdl.contains(x));
                let j = choose|j: int| 0 <= j < kdl.len() && kdl[j] == x;
                assert(kept[j] == x);
            } else {
                assert(x == s.last());
                assert(kept[kept.len() - 1] == x);
            }
        }
        assert(sick_days_sorted(kept)) by {
            assert forall|p: int, q: int| 0 <= p < q < kept.len() implies spec_date_le(
                #[trigger] kept[p],
                #[trigger] kept[q],
            ) && kept[p] != kept[q] by {
                if q < kdl.len() {
                    assert(kept[p] == kdl[p] && kept[q] == kdl[q]);
                } else {
                    assert(kept[q] == s.last());
                    assert(kdl[p] == kept[p]);
                    assert(kdl.contains(kdl[p]));
                    assert(dl.contains(kdl[p]));
                    let j = choose|j: int| 0 <= j < dl.len() && dl[j] == kdl[p];
                    assert(s[j] == kdl[p]);
                    assert(spec_date_le(s[j], s[s.len() - 1]) && s[j] != s[s.len() - 1]);
                }
            }
        }
    }
}

impl DaysOff {
    /// Drops every journal entry older than the first of the same month a
    /// year ago — the cutoff day itself stays — keeping roughly the
    /// trailing twelve months.  To run once per session, before any count
    /// is reported.
    pub fn roll_sick_days(&mut self, today: Date)
        requires
            days_off_wf(*old(self)),
            date_valid(today),
        ensures
            days_off_wf(*final(self)),
            final(self).year == old(self).year,
            final(self).holidays_left == old(self).holidays_left,
            final(self).sick_days@ == spec_kept_from(
                old(self).sick_days@,
                Date { year: (today.year - 1) as i32, month: today.month, day: 1 },
            ),
    {
        let limit = Date { year: today.year - 1, month: today.month, day: 1 };
        let mut kept: Vec<Date> = Vec::new();
        let mut i: usize = 0;
        proof {
            assert(self.sick_days@.subrange(0, 0) =~= Seq::<Date>::empty());
        }
        #[verifier::loop_isolation(false)]
        while i < self.sick_days.len()
            invariant
                0 <= i <= self.sick_days@.len(),
                kept@ == spec_kept_from(self.sick_days@.subrange(0, i as int), limit),
            decreases self.sick_days@.len() - i,
        {
            proof {
                assert(self.sick_days@.subrange(0, i + 1).drop_last() =~= self.sick_days@.subrange(
                    0,
                    i as int,
                ));
                assert(self.sick_days@.subrange(0, i + 1).last() == self.sick_days@[i as int]);
            }
            let d = self.sick_days[i];
            if crate::calendar::date_le(limit, d) {
                kept.push(d);
            }
            proof {
                assert(kept@ =~= spec_kept_from(self.sick_days@.subrange(0, i + 1), limit));
            }
            i = i + 1;
        }
        proof {
            assert(self.sick_days@.subrange(0, self.sick_days@.len() as int) =~= self.sick_days@);
            lemma_kept_from(self.sick_days@, limit);
        }
        self.sick_days = kept;
        proof {
            assert forall|j: int| 0 <= j < self.sick_days@.len() implies date_valid(
                #[trigger] self.sick_days@[j],
            ) by {
                let x = self.sick_days@[j];
                assert(self.sick_days@.contains(x));
                assert(old(self).sick_days@.contains(x));
                let k = choose|k: int|
                    0 <= k < old(self).sick_days@.len() && old(self).sick_days@[k] == x;
            }
        }
    }
}

/// Worth of a status toward the holiday credit, in half-days: what the
/// credit has already paid out for the day being in that status.
pub open spec fn spec_leave_worth(s: DayStatus) -> int {
    match s {
        DayStatus::Holiday => -2,
        DayStatus::Half => -1,
        DayStatus::Worked | DayStatus::Weekend | DayStatus::Sick => 0,
    }
}

/// The ledger model a run of status transitions leaves behind: the credit
/// and the sick set after applying each consecutive transition of the path
/// to one day's date.
pub open spec fn spec_chain(h: int, s: Set<Date>, path: Seq<DayStatus>, date: Date) -> (
    int,
    Set<Date>,
)
    decreases path.len(),
{
    if path.len() <= 1 {
        (h, s)
    } else {
        spec_chain(
            h + spec_holiday_delta(path[0], path[1]),
            spec_sick_after(s, path[0], path[1], date),
            path.subrange(1, path.len() as int),
            date,
        )
    }
}

/// Paths that never turn a weekend day into leave or sickness; the only
/// way off a weekend status is back to a worked or weekend day.
pub open spec fn chain_steps_ok(path: Seq<DayStatus>) -> bool {
    forall|k: int|
        0 <= k < path.len() - 1 ==> !(#[trigger] path[k] == DayStatus::Weekend && path[k + 1]
            != DayStatus::Worked && path[k + 1] != DayStatus::Weekend)
}

/// On every allowed transition the credit's change is the difference of
/// the two statuses' worth.
proof fn lemma_delta_is_worth_difference(a: DayStatus, b: DayStatus)
    requires
        !(a == DayStatus::Weekend && b != DayStatus::Worked && b != DayStatus::Weekend),
    ensures
        spec_holiday_delta(a, b) == spec_leave_worth(b) - spec_leave_worth(a),
{
}

/// Along a path of transitions the credit moves exactly with the worth of
/// the current status, and the date sits in the sick set exactly while the
/// status is `Sick`; every other date is untouched.
#[verifier::rlimit(50)]
proof fn lemma_chain_invariant(h: int, s: Set<Date>, path: Seq<DayStatus>, date: Date)
    requires
        path.len() >= 1,
        chain_steps_ok(path),
        s.contains(date) <==> path[0] == DayStatus::Sick,
    ensures
        ({
            let (h2, s2) = spec_chain(h, s, path, date);
            &&& h2 == h + spec_leave_worth(path[path.len() - 1]) - spec_leave_worth(path[0])
            &&& s2.contains(date) <==> path[path.len() - 1] == DayStatus::Sick
            &&& forall|x: Date| x != date ==> (s2.contains(x) <==> s.contains(x))
        }),
    decreases path.len(),
{
    if path.len() > 1 {
        let a = path[0];
        let b = path[1];
        let h1 = h + spec_holiday_delta(a, b);
        let s1 = spec_sick_after(s, a, b, date);
        lemma_delta_is_worth_difference(a, b);
        assert(s1.contains(date) <==> b == DayStatus::Sick);
        let rest = path.subrange(1, path.len() as int);
        assert(rest[0] == b);
        assert(chain_steps_ok(rest)) by {
            assert forall|k: int|
                0 <= k < rest.len() - 1 implies !(#[trigger] rest[k] == DayStatus::Weekend
                && rest[k + 1] != DayStatus::Worked && rest[k + 1] != DayStatus::Weekend) by {
                assert(rest[k] == path[k + 1] && rest[k + 1] == path[k + 2]);
            }
        }
        lemma_chain_invariant(h1, s1, rest, date);
        assert(rest[rest.len() - 1] == path[path.len() - 1]);
    }
}

/// Ledger conservation: a run of status transitions that ends on the
/// status it started from leaves both the holiday credit and the sick-day
/// set exactly as they were, provided no step books leave or sickness onto
/// a weekend day, and the sick set agreed with the starting status.
pub proof fn lemma_ledger_conservation(h: int, s: Set<Date>, path: Seq<DayStatus>, date: Date)
    requires
        path.len() >= 1,
        path[0] == path[path.len() - 1],
        chain_steps_ok(path),
        s.contains(date) <==> path[0] == DayStatus::Sick,
    ensures
        spec_chain(h, s, path, date).0 == h,
        spec_chain(h, s, path, date).1 =~= s,
{
    lemma_chain_invariant(h, s, path, date);
}

/// A sorted journal is determined by the set of its dates: two sorted,
/// repeat-free journals holding the same dates are the same sequence.
/// Together with the conservation lemma this lifts conservation to the
/// journal itself: after a cycle of transitions the journal reads exactly
/// as before.
pub proof fn lemma_journal_determined_by_set(s1: Seq<Date>, s2: Seq<Date>)
    requires
        sick_days_sorted(s1),
        sick_days_sorted(s2),
        s1.to_set() == s2.to_set(),
    ensures
        s1 == s2,
    decreases s1.len(),
{
    if s1.len() == 0 {
        if s2.len() > 0 {
            assert(s2.contains(s2[0]));
            assert(s1.to_set().contains(s2[0]));
            let k = choose|k: int| 0 <= k < s1.len() && s1[k] == s2[0];
            assert(false);
        }
        assert(s1 =~= s2);
    } else {
        if s2.len() == 0 {
            assert(s1.contains(s1[0]));
            assert(s2.to_set().contains(s1[0]));
            let k = choose|k: int| 0 <= k < s2.len() && s2[k] == s1[0];
            assert(false);
        }
        let m1 = s1.last();
        let m2 = s2.last();
        // Each last element occurs in the other journal, so order pins
        // them to one another.
        assert(s1.contains(m1) && s2.contains(m2));
        assert(s2.to_set().contains(m1) && s1.to_set().contains(m2));
        let k1 = choose|k: int| 0 <= k < s2.len() && s2[k] == m1;
        let k2 = choose|k: int| 0 <= k < s1.len() && s1[k] == m2;
        assert(k1 < s2.len() - 1 ==> spec_date_le(m1, m2) && m1 != m2);
        assert(k2 < s1.len() - 1 ==> spec_date_le(m2, m1) && m2 != m1);
        assert(m1 == m2);
        // The remainders hold the same dates: the shared maximum is in
        // neither, every other date is in both.
        let d1 = s1.drop_last();
        let d2 = s2.drop_last();
        assert(sick_days_sorted(d1) && sick_days_sorted(d2));
        assert(d1.to_set() =~= d2.to_set()) by {
            assert forall|x: Date| d1.to_set().contains(x) implies d2.to_set().contains(x) by {
                lemma_drop_last_contains(s1, x);
                lemma_drop_last_contains_rev(s2, x);
            }
            assert forall|x: Date| d2.to_set().contains(x) implies d1.to_set().contains(x) by {
                lemma_drop_last_contains(s2, x);
                lemma_drop_last_contains_rev(s1, x);
            }
        }
        lemma_journal_determined_by_set(d1, d2);
        assert(s1.len() == s2.len());
        assert forall|i: int| 0 <= i < s1.len() implies s1[i] == s2[i] by {
            if i < s1.len() - 1 {
                assert(d1[i] == s1[i] && d2[i] == s2[i]);
            }
        }
        assert(s1 =~= s2);
    }
}

/// A date of a sorted journal's front part is a date of the journal other
/// than its last.
proof fn lemma_drop_last_contains(s: Seq<Date>, x: Date)
    requires
        sick_days_sorted(s),
        s.len() > 0,
        s.drop_last().to_set().contains(x),
    ensures
        s.to_set().contains(x),
        x != s.last(),
{
    let k = choose|k: int| 0 <= k < s.drop_last().len() && s.drop_last()[k] == x;
    assert(s[k] == x);
    assert(spec_date_le(s[k], s[s.len() - 1]) && s[k] != s[s.len() - 1]);
}

/// A date of a sorted journal other than its last sits in its front part.
proof fn lemma_drop_last_contains_rev(s: Seq<Date>, x: Date)
    requires
        sick_days_sorted(s),
        s.len() > 0,
        s.to_set().contains(x),
        x != s.last(),
    ensures
        s.drop_last().to_set().contains(x),
{
    let k = choose|k: int| 0 <= k < s.len() && s[k] == x;
    assert(k < s.len() - 1);
    assert(s.drop_last()[k] == x);
    assert(s.drop_last().contains(x));
}

/// Whether the journal entry at a position lies strictly before a date.
fn date_lt_at(v: &Vec<Date>, i: usize, date: Date) -> (r: bool)
    requires
        i < v@.len(),
    ensures
        r == (spec_date_le(v@[i as int], date) && v@[i as int] != date),
{
    crate::calendar::date_lt(v[i], date)
}

/// Whether the journal entry at a position is exactly a date.
fn date_eq_at(v: &Vec<Date>, i: usize, date: Date) -> (r: bool)
    requires
        i < v@.len(),
    ensures
        r == (v@[i as int] == date),
{
    let d = v[i];
    d.year == date.year && d.month == date.month && d.day == date.day
}

} // verus!
