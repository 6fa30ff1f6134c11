//! A job: a function, the schedule that it runs on, and what is known of
//! its last and its next run.

use crate::error::Error;
use crate::schedule::{reference, Schedule, ScheduleView, TryIntoSchedule};
use crate::timestamp::Timestamp;
use vstd::prelude::*;

verus! {

/// A function and its place in time.
pub struct Job<F: FnMut()> {
    /// What a run calls.
    pub function: F,
    pub name: Option<String>,
    pub schedule: Option<Schedule>,
    /// Number of runs that are left, where the runs are counted.
    pub remaining: Option<usize>,
    pub next_run_at: Option<Timestamp>,
    pub last_run_at: Option<Timestamp>,
    /// `false` while the job is paused.
    pub is_active: bool,
}

/// The count of runs that are left after one more run.
pub open spec fn one_run_fewer(remaining: Option<usize>) -> Option<usize> {
    match remaining {
        Some(left) => if left > 0 {
            Some((left - 1) as usize)
        } else {
            Some(0usize)
        },
        None => None,
    }
}

impl<F: FnMut()> Job<F> {
    /// The instants that the job holds lie in the supported range.
    pub open spec fn wf(self) -> bool {
        &&& self.next_run_at matches Some(at) ==> at.wf()
        &&& self.last_run_at matches Some(at) ==> at.wf()
    }

    /// Whether the job is due at `now`: it is not paused, has runs left, and
    /// its next run lies at `now` or before it.
    pub open spec fn pending_at(self, now: Timestamp) -> bool {
        &&& self.is_active
        &&& self.remaining != Some(0usize)
        &&& self.next_run_at matches Some(at) && !now.before(at)
    }

    /// Whether `self` is `before` with the schedule `schedule` set at the
    /// present instant `now`: the count of runs is lifted, and the next run
    /// is the next occurrence behind the last run, or behind `now` where
    /// the job has not run.
    pub open spec fn is_rescheduled(
        self,
        before: Job<F>,
        schedule: ScheduleView,
        now: Timestamp,
    ) -> bool {
        &&& self.function == before.function
        &&& self.name == before.name
        &&& self.schedule matches Some(set) && set@ == schedule
        &&& self.remaining is None
        &&& schedule.is_next(reference(before.last_run_at, now), now, self.next_run_at)
        &&& self.last_run_at == before.last_run_at
        &&& self.is_active == before.is_active
    }

    /// Whether `self` is `before` with a run recorded that ended at `now`:
    /// one run fewer is left, and the next run is the next occurrence
    /// behind `now`, where the job has a schedule.
    pub open spec fn has_run(self, before: Job<F>, now: Timestamp) -> bool {
        &&& self.name == before.name
        &&& self.schedule == before.schedule
        &&& self.remaining == one_run_fewer(before.remaining)
        &&& match before.schedule {
            Some(schedule) => schedule@.is_next(now, now, self.next_run_at),
            None => self.next_run_at is None,
        }
        &&& self.last_run_at == Some(now)
        &&& self.is_active == before.is_active
    }

    /// Whether `self` is what one round over the agenda makes of `before`:
    /// the job has run and the run is recorded, where the job was due when
    /// the round came to it; else it is as before.
    pub open spec fn follows(self, before: Job<F>) -> bool {
        exists|now: Timestamp, end: Timestamp| #[trigger]
            self.follows_at(before, now, end)
    }

    /// Whether `self` is what one round over the agenda makes of `before`,
    /// where the round comes to the job at `now` and a run of it ends at
    /// `end`: where the job was due, its function was called and has
    /// returned, and the run is recorded.
    pub open spec fn follows_at(self, before: Job<F>, now: Timestamp, end: Timestamp) -> bool {
        &&& now.wf()
        &&& end.wf()
        &&& if before.pending_at(now) {
            call_ensures(before.function, (), ()) && self.has_run(before, end)
        } else {
            self == before
        }
    }

    /// A job that calls `function`: active, without a name, a schedule or a
    /// count of runs, and with no run behind it or before it.
    pub open spec fn fresh(function: F) -> Job<F> {
        Job {
            function,
            name: None,
            schedule: None,
            remaining: None,
            next_run_at: None,
            last_run_at: None,
            is_active: true,
        }
    }

    /// A job that calls `function`: active, without a name, a schedule or a
    /// count of runs.
    pub fn new(function: F) -> (job: Job<F>)
        ensures
            job == Job::fresh(function),
            job.wf(),
    {
        Job {
            function,
            name: None,
            remaining: None,
            schedule: None,
            next_run_at: None,
            last_run_at: None,
            is_active: true,
        }
    }

    /// Whether the job is due at `now`.
    pub fn is_pending_at(&self, now: &Timestamp) -> (r: bool)
        requires
            self.wf(),
            now.wf(),
        ensures
            r == self.pending_at(*now),
    {
        if !self.is_active {
            return false;
        }
        if let Some(left) = self.remaining {
            if left == 0 {
                return false;
            }
        }
        if let Some(at) = self.next_run_at {
            !now.is_before(&at)
        } else {
            false
        }
    }

    /// Whether the job is due at the present instant, as the system clock
    /// gives it.
    pub fn is_pending(&self) -> (r: bool)
        requires
            self.wf(),
        ensures
            exists|now: Timestamp| now.wf() && r == #[trigger] self.pending_at(now),
            r ==> self.is_active && self.remaining != Some(0usize) && self.next_run_at is Some,
    {
        let now = Timestamp::now();
        self.is_pending_at(&now)
    }

    /// Sets the schedule that `s` converts to, with `now` as the present
    /// instant. Where `s` converts to none, the job stays as it is.
    pub fn schedule_at<S: TryIntoSchedule>(&mut self, s: S, now: Timestamp) -> (r: Result<
        (),
        Error,
    >)
        requires
            old(self).wf(),
            now.wf(),
        ensures
            match s.conversion() {
                Ok(schedule) => r is Ok && final(self).is_rescheduled(*old(self), schedule, now),
                Err(failure) => r matches Err(e) && e@ == failure && *final(self) == *old(self),
            },
            final(self).wf(),
    {
        let schedule = match s.try_into_schedule() {
            Ok(schedule) => schedule,
            Err(e) => {
                return Err(e);
            },
        };
        self.next_run_at = schedule.next_from(self.last_run_at, now);
        self.schedule = Some(schedule);
        self.remaining = None;
        Ok(())
    }

    /// Sets the schedule that `s` converts to, at the present instant as
    /// the system clock gives it. Where `s` converts to none, the job stays
    /// as it is.
    pub fn schedule<S: TryIntoSchedule>(&mut self, s: S) -> (r: Result<(), Error>)
        requires
            old(self).wf(),
        ensures
            match s.conversion() {
                Ok(schedule) => r is Ok && exists|now: Timestamp|
                    now.wf() && #[trigger] final(self).is_rescheduled(*old(self), schedule, now),
                Err(failure) => r matches Err(e) && e@ == failure && *final(self) == *old(self),
            },
            final(self).wf(),
    {
        let now = Timestamp::now();
        self.schedule_at(s, now)
    }

    /// Records a run that ended at `now`.
    pub fn record_run(&mut self, now: Timestamp)
        requires
            old(self).wf(),
            now.wf(),
        ensures
            final(self).has_run(*old(self), now),
            final(self).function == old(self).function,
            final(self).wf(),
    {
        if let Some(left) = self.remaining {
            if left > 0 {
                self.remaining = Some(left - 1);
            }
        }
        self.last_run_at = Some(now);
        self.next_run_at = match &self.schedule {
            Some(schedule) => schedule.next_from(Some(now), now),
            None => None,
        };
    }

    /// Calls the function, and records the run at the instant that the
    /// system clock gives when the function has returned. The first clause
    /// says that the function was called and has returned.
    pub fn run(&mut self)
        requires
            old(self).wf(),
            call_requires(old(self).function, ()),
        ensures
            call_ensures(old(self).function, (), ()),
            exists|now: Timestamp| now.wf() && #[trigger] final(self).has_run(*old(self), now),
            call_requires(final(self).function, ()),
            final(self).wf(),
    {
        (self.function)();
        let now = Timestamp::now();
        self.record_run(now);
    }
}

} // verus!
