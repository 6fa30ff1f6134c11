//! Schedules in the manner of cron: for each unit of time a set of accepted
//! values, and the search for the next second that all of them accept.

use crate::calendar::{
    civil_of, days_before_year, lemma_civil_of, lemma_civil_of_instant, lemma_day_in_year,
    lemma_following_day, lemma_following_hour, lemma_following_minute, lemma_following_month,
    lemma_following_second, lemma_instant_in_range, lemma_range_constants, lemma_years_ascend,
    Civil, MAX_SECS, MAX_YEAR, MIN_SECS, MIN_YEAR,
};
use crate::constraint::{admits, ConstraintSet};
use crate::timestamp::Timestamp;
use vstd::prelude::*;

verus! {

/// The values that a schedule accepts for each unit of time. Months count
/// from 1, days of the month from 1, days of the week from 0 for Monday to 6
/// for Sunday. An empty set accepts every value of its unit.
#[derive(Debug)]
pub struct CronSchedule {
    pub seconds: ConstraintSet,
    pub minutes: ConstraintSet,
    pub hours: ConstraintSet,
    pub days_of_month: ConstraintSet,
    pub months: ConstraintSet,
    pub days_of_week: ConstraintSet,
}

/// A [`CronSchedule`] as contracts see it: the six sets.
#[verifier::ext_equal]
pub struct CronView {
    pub seconds: Set<u32>,
    pub minutes: Set<u32>,
    pub hours: Set<u32>,
    pub days_of_month: Set<u32>,
    pub months: Set<u32>,
    pub days_of_week: Set<u32>,
}

impl View for CronSchedule {
    type V = CronView;

    open spec fn view(&self) -> CronView {
        CronView {
            seconds: self.seconds@,
            minutes: self.minutes@,
            hours: self.hours@,
            days_of_month: self.days_of_month@,
            months: self.months@,
            days_of_week: self.days_of_week@,
        }
    }
}

/// Whether a day is accepted, by its number in the month and its day of the
/// week. Where both units are constrained, one of them suffices; where one
/// is, it decides; where none is, every day is accepted.
pub open spec fn day_rule(
    days_of_month: Set<u32>,
    days_of_week: Set<u32>,
    day: u32,
    weekday: u32,
) -> bool {
    if days_of_month =~= Set::empty() {
        admits(days_of_week, weekday)
    } else if days_of_week =~= Set::empty() {
        days_of_month.contains(day)
    } else {
        days_of_month.contains(day) || days_of_week.contains(weekday)
    }
}

/// The first second that lies two calendar years after the year of `now`
/// or later, or behind the supported range: the search for an occurrence
/// ends before it.
pub open spec fn horizon(now: Timestamp) -> int {
    if now.civil().year + 2 > MAX_YEAR {
        MAX_SECS + 1
    } else {
        days_before_year(now.civil().year + 2) * 86_400
    }
}

impl CronView {
    /// Whether the schedule accepts the day of `c`.
    pub open spec fn admits_day(self, c: Civil) -> bool {
        day_rule(self.days_of_month, self.days_of_week, c.day, c.weekday() as u32)
    }

    /// Whether every unit accepts its value in `c`.
    pub open spec fn matches(self, c: Civil) -> bool {
        &&& admits(self.months, c.month)
        &&& self.admits_day(c)
        &&& admits(self.hours, c.hour)
        &&& admits(self.minutes, c.minute)
        &&& admits(self.seconds, c.second)
    }

    /// Whether the schedule fires at the second `secs` seconds from the
    /// epoch.
    pub open spec fn fires_at(self, secs: int) -> bool {
        self.matches(civil_of(secs))
    }

    /// One step of the search for a second that the schedule accepts.
    /// `None` where every unit accepts its value in `c`. Otherwise the
    /// first second behind the coarsest unit of `c` that is not accepted:
    /// the month before the day, the day before the hour, and so on down to
    /// the second.
    pub open spec fn step(self, c: Civil) -> Option<Civil> {
        if !admits(self.months, c.month) {
            Some(c.following_month())
        } else if !self.admits_day(c) {
            Some(c.following_day())
        } else if !admits(self.hours, c.hour) {
            Some(c.following_hour())
        } else if !admits(self.minutes, c.minute) {
            Some(c.following_minute())
        } else if !admits(self.seconds, c.second) {
            Some(c.following_second())
        } else {
            None
        }
    }

    /// Whether the search may go from `c` on to `n`: `n` lies behind `c`, in
    /// the year of `c` or in the next, within the supported range or at the
    /// first second behind it, and the schedule fires at no second from
    /// `c` up to `n`.
    pub open spec fn skips_nothing(self, c: Civil, n: Civil) -> bool {
        &&& n.valid()
        &&& n.wf() || n.instant() == MAX_SECS + 1
        &&& c.year <= n.year <= c.year + 1
        &&& c.instant() < n.instant() <= MAX_SECS + 1
        &&& forall|u: int| c.instant() <= u < n.instant() ==> !#[trigger] self.fires_at(u)
    }

    /// Whether `r` is the first second from `start` on and before `end` at
    /// which the schedule fires: `None` where there is no such second.
    pub open spec fn is_next(self, start: int, end: int, r: Option<Timestamp>) -> bool {
        match r {
            Some(t) => {
                &&& t.nanos == 0
                &&& start <= t.secs < end
                &&& self.fires_at(t.secs as int)
                &&& forall|u: int| start <= u < t.secs ==> !#[trigger] self.fires_at(u)
            },
            None => forall|u: int| start <= u < end ==> !#[trigger] self.fires_at(u),
        }
    }
}

/// A step of the search skips no occurrence: it ends the search exactly
/// where the schedule fires, and else goes on to a later second without
/// passing a second at which the schedule fires.
pub proof fn lemma_step_skips_nothing(cron: CronView, c: Civil)
    requires
        c.wf(),
    ensures
        cron.step(c) is None <==> cron.matches(c),
        cron.step(c) matches Some(n) ==> cron.skips_nothing(c, n),
{
    lemma_instant_in_range(c);
    lemma_civil_of_instant(c);
    lemma_following_month(c, c);
    lemma_following_day(c, c);
    lemma_following_hour(c, c);
    lemma_following_minute(c, c);
    lemma_following_second(c);
    if let Some(n) = cron.step(c) {
        if n.wf() {
            lemma_instant_in_range(n);
        }
        assert forall|u: int| c.instant() <= u < n.instant() implies !#[trigger] cron.fires_at(
            u,
        ) by {
            let x = civil_of(u);
            lemma_civil_of(u);
            if !admits(cron.months, c.month) {
                lemma_following_month(c, x);
            } else if !cron.admits_day(c) {
                lemma_following_day(c, x);
            } else if !admits(cron.hours, c.hour) {
                lemma_following_hour(c, x);
            } else if !admits(cron.minutes, c.minute) {
                lemma_following_minute(c, x);
            }
        }
    }
}

impl CronSchedule {
    /// Whether the schedule accepts the day of `c`.
    pub fn day_matches(&self, c: &Civil) -> (r: bool)
        requires
            c.wf(),
        ensures
            r == self@.admits_day(*c),
    {
        if self.days_of_month.is_empty() {
            self.days_of_week.accepts(c.day_of_week())
        } else if self.days_of_week.is_empty() {
            self.days_of_month.contains(c.day)
        } else {
            self.days_of_month.contains(c.day) || self.days_of_week.contains(c.day_of_week())
        }
    }

    /// Whether every unit accepts its value in `c`: whether the schedule
    /// fires at the second that `c` names.
    pub fn accepts(&self, c: &Civil) -> (r: bool)
        requires
            c.wf(),
        ensures
            r == self@.matches(*c),
            r == self@.fires_at(c.instant()),
    {
        proof {
            lemma_civil_of_instant(*c);
        }
        self.months.accepts(c.month) && self.day_matches(c) && self.hours.accepts(c.hour)
            && self.minutes.accepts(c.minute) && self.seconds.accepts(c.second)
    }

    /// One step of the search. `None` where every unit accepts `c`.
    /// Otherwise the first second behind the coarsest unit of `c` that is
    /// not accepted, the finer units set back to their start: the schedule
    /// fires at no second from `c` up to it.
    pub fn advance(&self, c: &Civil) -> (r: Option<Civil>)
        requires
            c.wf(),
        ensures
            r == self@.step(*c),
            r is None <==> self@.matches(*c),
            r matches Some(n) ==> self@.skips_nothing(*c, n),
    {
        proof {
            lemma_step_skips_nothing(self@, *c);
        }
        if !self.months.accepts(c.month) {
            Some(c.next_month())
        } else if !self.day_matches(c) {
            Some(c.next_day())
        } else if !self.hours.accepts(c.hour) {
            Some(c.next_hour())
        } else if !self.minutes.accepts(c.minute) {
            Some(c.next_minute())
        } else if !self.seconds.accepts(c.second) {
            Some(c.next_second())
        } else {
            None
        }
    }

    /// The first second behind `after` at which the schedule fires, where
    /// there is one before two calendar years after the year of `now`.
    pub fn next_after(&self, after: &Timestamp, now: &Timestamp) -> (r: Option<Timestamp>)
        requires
            after.wf(),
            now.wf(),
        ensures
            self@.is_next(after.secs + 1, horizon(*now), r),
            r matches Some(t) ==> t.wf() && after.before(t),
    {
        let now_year: i32 = now.to_civil().year;
        let limit_year: i32 = if now_year + 2 > MAX_YEAR {
            MAX_YEAR + 1
        } else {
            now_year + 2
        };
        proof {
            lemma_range_constants();
            lemma_years_ascend(limit_year as int, MAX_YEAR + 1);
        }
        if after.secs >= MAX_SECS {
            return None;
        }
        let ghost start: int = after.secs + 1;
        let mut candidate: Civil = Civil::from_secs(after.secs + 1);
        loop
            invariant
                candidate.valid(),
                candidate.wf() || candidate.instant() == MAX_SECS + 1,
                MIN_YEAR <= candidate.year <= MAX_YEAR + 1,
                MIN_YEAR <= limit_year <= MAX_YEAR + 1,
                horizon(*now) == days_before_year(limit_year as int) * 86_400,
                start == after.secs + 1,
                after.wf(),
                start <= candidate.instant(),
                forall|u: int| start <= u < candidate.instant() ==> !#[trigger] self@.fires_at(u),
            decreases MAX_SECS + 1 - candidate.instant(),
        {
            proof {
                lemma_day_in_year(candidate);
            }
            if candidate.year >= limit_year {
                proof {
                    lemma_years_ascend(limit_year as int, candidate.year as int);
                }
                return None;
            }
            proof {
                lemma_years_ascend(candidate.year + 1, limit_year as int);
                lemma_instant_in_range(candidate);
            }
            match self.advance(&candidate) {
                None => {
                    let secs = candidate.to_secs();
                    proof {
                        lemma_civil_of_instant(candidate);
                    }
                    return Some(Timestamp { secs, nanos: 0 });
                },
                Some(next) => {
                    candidate = next;
                },
            }
        }
    }
}

/// Where both the days of the month and the days of the week are
/// constrained, a day is accepted as soon as one of the two accepts it:
/// the schedule fires on each accepted day of the month and on each
/// accepted day of the week, at the times of day that it accepts.
pub proof fn lemma_either_day_unit_suffices(cron: CronView, c: Civil)
    requires
        cron.days_of_month != Set::<u32>::empty(),
        cron.days_of_week != Set::<u32>::empty(),
    ensures
        cron.admits_day(c) <==> cron.days_of_month.contains(c.day) || cron.days_of_week.contains(
            c.weekday() as u32,
        ),
        cron.matches(c) <==> {
            &&& cron.days_of_month.contains(c.day) || cron.days_of_week.contains(c.weekday() as u32)
            &&& admits(cron.months, c.month)
            &&& admits(cron.hours, c.hour)
            &&& admits(cron.minutes, c.minute)
            &&& admits(cron.seconds, c.second)
        },
{
}

/// There is one next occurrence at most: what [`CronView::is_next`] holds
/// of is determined by the schedule and the two bounds.
pub proof fn lemma_next_is_unique(
    cron: CronView,
    start: int,
    end: int,
    r1: Option<Timestamp>,
    r2: Option<Timestamp>,
)
    requires
        cron.is_next(start, end, r1),
        cron.is_next(start, end, r2),
    ensures
        r1 == r2,
{
}

/// The next occurrence of a periodic schedule lies behind the instant that
/// the search started from, never at it or before it.
pub proof fn lemma_next_is_later(cron: CronView, after: Timestamp, end: int, r: Option<Timestamp>)
    requires
        after.wf(),
        cron.is_next(after.secs + 1, end, r),
    ensures
        r matches Some(t) ==> after.before(t),
{
}

/// A schedule that no date can meet has no next occurrence: where the days
/// of the week are free and no month that the schedule accepts has a day
/// that it accepts, the search ends with `None`.
pub proof fn lemma_no_such_day(cron: CronView, start: int, end: int, r: Option<Timestamp>)
    requires
        MIN_SECS <= start,
        end <= MAX_SECS + 1,
        cron.days_of_week == Set::<u32>::empty(),
        cron.days_of_month != Set::<u32>::empty(),
        forall|c: Civil| #[trigger]
            c.valid() && admits(cron.months, c.month) ==> !cron.days_of_month.contains(c.day),
        cron.is_next(start, end, r),
    ensures
        r is None,
{
    if let Some(t) = r {
        lemma_civil_of(t.secs as int);
        assert(civil_of(t.secs as int).valid());
    }
}

/// February has no 31st: a schedule for the 31st of February, on any day of
/// the week, has no next occurrence.
pub proof fn lemma_no_february_31(cron: CronView, start: int, end: int, r: Option<Timestamp>)
    requires
        MIN_SECS <= start,
        end <= MAX_SECS + 1,
        cron.days_of_week == Set::<u32>::empty(),
        cron.days_of_month == set![31u32],
        cron.months == set![2u32],
        cron.is_next(start, end, r),
    ensures
        r is None,
{
    assert(cron.days_of_month.contains(31u32));
    assert(cron.months.contains(2u32));
    lemma_no_such_day(cron, start, end, r);
}

} // verus!
