//! The two kinds of recurrence, and the next occurrence of each.

use crate::cron::{horizon, CronSchedule, CronView};
use crate::error::{Error, Failure};
use crate::parser::{parse, parsed};
use crate::resolver::{resolve, resolved};
use crate::timestamp::{Duration, SignedDuration, Timestamp};
use vstd::prelude::*;
use vstd::string::StringSliceAdditionalSpecFns;

verus! {

/// A recurrence.
#[derive(Debug)]
pub enum Schedule {
    /// Fires at the seconds that a cron schedule accepts.
    Periodic(CronSchedule),
    /// Fires a fixed length of time after the occurrence before.
    Interval(Duration),
}

/// A [`Schedule`] as contracts see it.
pub enum ScheduleView {
    Periodic(CronView),
    Interval(Duration),
}

impl View for Schedule {
    type V = ScheduleView;

    open spec fn view(&self) -> ScheduleView {
        match self {
            Schedule::Periodic(cron) => ScheduleView::Periodic(cron@),
            Schedule::Interval(length) => ScheduleView::Interval(*length),
        }
    }
}

/// The instant that a search starts from: `after` where it is given, else
/// the present instant.
pub open spec fn reference(after: Option<Timestamp>, now: Timestamp) -> Timestamp {
    match after {
        Some(given) => given,
        None => now,
    }
}

impl ScheduleView {
    /// Whether each occurrence lies behind the one before: it does for
    /// every schedule but an interval of no length.
    pub open spec fn advances(self) -> bool {
        self matches ScheduleView::Interval(length) ==> length.nanos > 0
    }

    /// Whether `r` is the next occurrence behind `after`, at the present
    /// instant `now`. A periodic schedule fires next at the first whole
    /// second behind `after` that it accepts, where there is one before two
    /// calendar years after the year of `now`. An interval schedule fires
    /// next its length behind `after`, where the supported range holds that
    /// instant.
    pub open spec fn is_next(self, after: Timestamp, now: Timestamp, r: Option<Timestamp>) -> bool {
        match self {
            ScheduleView::Periodic(cron) => cron.is_next(after.secs + 1, horizon(now), r),
            ScheduleView::Interval(length) => r == after.plus(length),
        }
    }
}

impl Schedule {
    /// The next occurrence behind `after`, or behind `now` where `after` is
    /// `None`, with `now` as the present instant.
    pub fn next_from(&self, after: Option<Timestamp>, now: Timestamp) -> (r: Option<Timestamp>)
        requires
            now.wf(),
            after matches Some(given) ==> given.wf(),
        ensures
            self@.is_next(reference(after, now), now, r),
            r matches Some(t) ==> t.wf(),
            r matches Some(t) ==> self@.advances() ==> reference(after, now).before(t),
    {
        let start = match after {
            Some(given) => given,
            None => now,
        };
        match self {
            Schedule::Periodic(cron) => cron.next_after(&start, &now),
            Schedule::Interval(length) => start.checked_add(length),
        }
    }

    /// The next occurrence behind `after`, or behind the present instant
    /// where `after` is `None`. The present instant is read from the system
    /// clock.
    pub fn next(&self, after: Option<Timestamp>) -> (r: Option<Timestamp>)
        requires
            after matches Some(given) ==> given.wf(),
        ensures
            exists|now: Timestamp|
                now.wf() && #[trigger] self@.is_next(reference(after, now), now, r),
            r matches Some(t) ==> t.wf(),
            (after, self@) matches (Some(given), ScheduleView::Interval(length)) ==> r
                == given.plus(length),
            (after, r) matches (Some(given), Some(t)) ==> self@.advances() ==> given.before(t),
    {
        let now = Timestamp::now();
        self.next_from(after, now)
    }
}

/// What a schedule can be made from.
pub trait TryIntoSchedule: Sized {
    /// What the conversion of `self` yields: the schedule, or the reason
    /// why there is none.
    spec fn conversion(self) -> Result<ScheduleView, Failure>;

    /// Makes the schedule.
    fn try_into_schedule(self) -> (r: Result<Schedule, Error>)
        ensures
            outcome(r) == self.conversion(),
    ;
}

/// The result of a conversion as contracts see it.
pub open spec fn outcome(r: Result<Schedule, Error>) -> Result<ScheduleView, Failure> {
    match r {
        Ok(schedule) => Ok(schedule@),
        Err(e) => Err(e@),
    }
}

/// The schedule that a cron expression stands for: it fails as no
/// expression where the text does not parse, and on its number of fields
/// where that is neither five nor six.
pub open spec fn expression_schedule(text: &str) -> Result<ScheduleView, Failure> {
    match parsed(text.spec_bytes()) {
        None => Err(Failure::Parse(text@)),
        Some(fields) => match resolved(fields) {
            None => Err(Failure::FieldCount(fields.len() as usize)),
            Some(cron) => Ok(ScheduleView::Periodic(cron)),
        },
    }
}

impl<'a> TryIntoSchedule for &'a str {
    open spec fn conversion(self) -> Result<ScheduleView, Failure> {
        expression_schedule(self)
    }

    /// Reads a cron expression.
    fn try_into_schedule(self) -> (r: Result<Schedule, Error>) {
        match parse(self.as_bytes()) {
            Err(_) => Err(Error::Parse(self.to_owned())),
            Ok(fields) => match resolve(&fields) {
                Err(e) => Err(e),
                Ok(cron) => Ok(Schedule::Periodic(cron)),
            },
        }
    }
}

impl TryIntoSchedule for Duration {
    open spec fn conversion(self) -> Result<ScheduleView, Failure> {
        Ok(ScheduleView::Interval(self))
    }

    /// Recurs every `self`.
    fn try_into_schedule(self) -> (r: Result<Schedule, Error>) {
        Ok(Schedule::Interval(self))
    }
}

impl TryIntoSchedule for SignedDuration {
    open spec fn conversion(self) -> Result<ScheduleView, Failure> {
        match self.unsigned() {
            Some(length) => Ok(ScheduleView::Interval(length)),
            None => Err(Failure::DurationConversion(self)),
        }
    }

    /// Recurs every `self`; fails where `self` is negative.
    fn try_into_schedule(self) -> (r: Result<Schedule, Error>) {
        match self.to_unsigned() {
            Some(length) => Ok(Schedule::Interval(length)),
            None => Err(Error::DurationConversion(self)),
        }
    }
}

/// The next occurrence lies behind the instant that the search started
/// from, never at it or before it. This holds of every periodic schedule,
/// and of every interval schedule whose length is not zero.
pub proof fn lemma_occurrence_is_later(
    schedule: ScheduleView,
    after: Timestamp,
    now: Timestamp,
    r: Option<Timestamp>,
)
    requires
        after.wf(),
        schedule.is_next(after, now, r),
        schedule.advances(),
    ensures
        r matches Some(t) ==> after.before(t),
{
}

/// There is one next occurrence at most: the schedule, the instant that
/// the search starts from and the present instant determine it.
pub proof fn lemma_occurrence_is_unique(
    schedule: ScheduleView,
    after: Timestamp,
    now: Timestamp,
    r1: Option<Timestamp>,
    r2: Option<Timestamp>,
)
    requires
        schedule.is_next(after, now, r1),
        schedule.is_next(after, now, r2),
    ensures
        r1 == r2,
{
}

/// The instant reached from `origin` by taking the next occurrence of an
/// interval schedule of the given length `count` times, each time behind
/// the occurrence before: a step goes from an instant to the one that lies
/// the length behind it.
pub open spec fn repeated(origin: Timestamp, length: Duration, count: nat) -> Option<Timestamp>
    decreases count,
{
    if count == 0 {
        Some(origin)
    } else {
        match repeated(origin, length, (count - 1) as nat) {
            Some(t) => t.plus(length),
            None => None,
        }
    }
}

/// An interval schedule does not drift: the occurrence reached in `count`
/// steps from `origin` lies `count` times the length behind `origin`, and
/// there is none exactly where the supported range does not hold that
/// instant.
pub proof fn lemma_interval_does_not_drift(origin: Timestamp, length: Duration, count: nat)
    requires
        origin.wf(),
    ensures
        repeated(origin, length, count) == origin.plus_nanos(count * length.nanos),
        repeated(origin, length, count) matches Some(t) ==> t.wf() && t.nanos_since_epoch()
            == origin.nanos_since_epoch() + count * length.nanos,
    decreases count,
{
    if count > 0 {
        let fewer = (count - 1) as nat;
        lemma_interval_does_not_drift(origin, length, fewer);
        assert(count * length.nanos == fewer * length.nanos + length.nanos) by (nonlinear_arith)
            requires
                count == fewer + 1,
        ;
        assert(fewer * length.nanos >= 0) by (nonlinear_arith)
            requires
                fewer >= 0,
                length.nanos >= 0,
        ;
    }
}

} // verus!
