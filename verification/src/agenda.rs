//! The agenda: a list of jobs, and the views through which one job of it is
//! built or operated.

use crate::error::Error;
use crate::job::Job;
use crate::schedule::TryIntoSchedule;
use crate::timestamp::Timestamp;
use vstd::prelude::*;

verus! {

/// A list of jobs.
pub struct Agenda<F: FnMut()> {
    jobs: Vec<Job<F>>,
}

impl<F: FnMut()> View for Agenda<F> {
    type V = Seq<Job<F>>;

    closed spec fn view(&self) -> Seq<Job<F>> {
        self.jobs@
    }
}

impl<F: FnMut()> Default for Agenda<F> {
    /// An agenda without jobs.
    fn default() -> (agenda: Agenda<F>)
        ensures
            agenda@ == Seq::<Job<F>>::empty(),
            agenda.wf(),
    {
        Agenda::new()
    }
}

/// View into an agenda, used to operate on one job of it.
pub struct JobOperator<'a, F: FnMut()> {
    pub agenda: &'a mut Agenda<F>,
    pub index: usize,
}

/// View into an agenda, used to build the job that was added last.
pub struct JobBuilder<'a, F: FnMut()> {
    pub agenda: &'a mut Agenda<F>,
    pub index: usize,
}

/// Whether `job` has the name `name`.
pub open spec fn is_named<F: FnMut()>(job: Job<F>, name: Seq<char>) -> bool {
    job.name matches Some(given) && given@ == name
}

/// Whether one of `jobs` is due at `now`.
pub open spec fn any_pending<F: FnMut()>(jobs: Seq<Job<F>>, now: Timestamp) -> bool {
    exists|i: int| 0 <= i < jobs.len() && (#[trigger] jobs[i]).pending_at(now)
}

impl<F: FnMut()> Agenda<F> {
    /// Every job is well formed.
    pub open spec fn wf(self) -> bool {
        forall|i: int| 0 <= i < self@.len() ==> (#[trigger] self@[i]).wf()
    }

    /// An agenda without jobs.
    pub fn new() -> (agenda: Agenda<F>)
        ensures
            agenda@ == Seq::<Job<F>>::empty(),
            agenda.wf(),
    {
        Agenda { jobs: Vec::new() }
    }

    /// Whether the agenda holds no job.
    pub fn is_empty(&self) -> (r: bool)
        ensures
            r == (self@.len() == 0),
    {
        self.jobs.len() == 0
    }

    /// The number of jobs in the agenda.
    pub fn len(&self) -> (r: usize)
        ensures
            r == self@.len(),
    {
        self.jobs.len()
    }

    /// Removes every job.
    pub fn clear(&mut self)
        ensures
            final(self)@ == Seq::<Job<F>>::empty(),
            final(self).wf(),
    {
        self.jobs.clear()
    }

    /// Whether a job is due at `now`.
    pub fn is_pending_at(&self, now: &Timestamp) -> (r: bool)
        requires
            self.wf(),
            now.wf(),
        ensures
            r == any_pending(self@, *now),
    {
        let mut i: usize = 0;
        while i < self.jobs.len()
            invariant
                i <= self@.len(),
                self.wf(),
                now.wf(),
                forall|j: int| 0 <= j < i ==> !(#[trigger] self@[j]).pending_at(*now),
            decreases self@.len() - i,
        {
            if self.jobs[i].is_pending_at(now) {
                return true;
            }
            i = i + 1;
        }
        false
    }

    /// Whether a job is due at the present instant, as the system clock
    /// gives it.
    pub fn is_pending(&self) -> (r: bool)
        requires
            self.wf(),
        ensures
            exists|now: Timestamp| now.wf() && r == #[trigger] any_pending(self@, now),
    {
        let now = Timestamp::now();
        self.is_pending_at(&now)
    }

    /// One round over the agenda: each job that is due when the round comes
    /// to it is run, and the run recorded.
    pub fn run_pending(&mut self)
        requires
            old(self).wf(),
            forall|i: int|
                0 <= i < old(self)@.len() ==> call_requires(
                    (#[trigger] old(self)@[i]).function,
                    (),
                ),
        ensures
            final(self)@.len() == old(self)@.len(),
            forall|i: int|
                0 <= i < old(self)@.len() ==> (#[trigger] final(self)@[i]).follows(old(self)@[i]),
            forall|i: int|
                0 <= i < final(self)@.len() ==> call_requires(
                    (#[trigger] final(self)@[i]).function,
                    (),
                ),
            final(self).wf(),
    {
        let mut i: usize = 0;
        while i < self.jobs.len()
            invariant
                i <= self@.len(),
                self@.len() == old(self)@.len(),
                self.wf(),
                forall|j: int|
                    0 <= j < self@.len() ==> call_requires((#[trigger] self@[j]).function, ()),
                forall|j: int| 0 <= j < i ==> (#[trigger] self@[j]).follows(old(self)@[j]),
                forall|j: int| i <= j < self@.len() ==> #[trigger] self@[j] == old(self)@[j],
            decreases self@.len() - i,
        {
            let ghost before = self@[i as int];
            let now = Timestamp::now();
            if self.jobs[i].is_pending_at(&now) {
                self.jobs[i].run();
                proof {
                    let end = choose|end: Timestamp|
                        end.wf() && #[trigger] self@[i as int].has_run(before, end);
                    assert(self@[i as int].follows_at(before, now, end));
                }
            } else {
                assert(self@[i as int].follows_at(before, now, now));
            }
            i = i + 1;
        }
    }

    /// Adds a job that calls `function`, and gives the view to build it.
    pub fn add<'a>(&'a mut self, function: F) -> (builder: JobBuilder<'a, F>)
        requires
            old(self).wf(),
        ensures
            builder.wf(),
            builder.index == old(self)@.len(),
            builder.agenda@ == old(self)@.push(Job::fresh(function)),
            *final(self) == *final(builder.agenda),
    {
        self.jobs.push(Job::new(function));
        let index = self.jobs.len() - 1;
        assert forall|i: int| 0 <= i < self@.len() implies (#[trigger] self@[i]).wf() by {
            if i < old(self)@.len() {
                assert(self@[i] == old(self)@[i]);
            }
        }
        JobBuilder { agenda: self, index }
    }

    /// The view to operate on the first job that has the name `name`;
    /// `None` where no job has it.
    pub fn get<'a>(&'a mut self, name: &str) -> (found: Option<JobOperator<'a, F>>)
        requires
            old(self).wf(),
        ensures
            match found {
                Some(operator) => {
                    &&& operator.wf()
                    &&& operator.agenda@ == old(self)@
                    &&& is_named(old(self)@[operator.index as int], name@)
                    &&& forall|i: int|
                        0 <= i < operator.index ==> !is_named(#[trigger] old(self)@[i], name@)
                    &&& *final(self) == *final(operator.agenda)
                },
                None => {
                    &&& forall|i: int|
                        0 <= i < old(self)@.len() ==> !is_named(#[trigger] old(self)@[i], name@)
                    &&& *final(self) == *old(self)
                },
            },
    {
        let wanted: String = name.to_owned();
        let mut index: usize = 0;
        while index < self.jobs.len()
            invariant
                index <= self@.len(),
                wanted@ == name@,
                *self == *old(self),
                self.wf(),
                forall|i: int| 0 <= i < index ==> !is_named(#[trigger] self@[i], name@),
            decreases self@.len() - index,
        {
            let named = match &self.jobs[index].name {
                Some(given) => *given == wanted,
                None => false,
            };
            if named {
                return Some(JobOperator { agenda: self, index });
            }
            index = index + 1;
        }
        None
    }
}

impl<'a, F: FnMut()> JobOperator<'a, F> {
    /// The view points at a job of a well-formed agenda.
    pub open spec fn wf(self) -> bool {
        self.index < self.agenda@.len() && self.agenda.wf()
    }

    /// The job that the view points at.
    pub open spec fn job(self) -> Job<F> {
        self.agenda@[self.index as int]
    }

    /// Sets the schedule of the job to the one that `s` converts to. Where
    /// `s` converts to none, the job stays as it is.
    pub fn schedule<S: TryIntoSchedule>(&mut self, s: S) -> (r: Result<
        &mut JobOperator<'a, F>,
        Error,
    >)
        requires
            old(self).wf(),
        ensures
            match s.conversion() {
                Ok(schedule) => {
                    &&& r matches Ok(same)
                    &&& same.wf()
                    &&& same.index == old(self).index
                    &&& same.agenda@ == old(self).agenda@.update(same.index as int, same.job())
                    &&& exists|now: Timestamp|
                        now.wf() && #[trigger] same.job().is_rescheduled(
                            old(self).job(),
                            schedule,
                            now,
                        )
                    &&& *final(same.agenda) == *final(old(self).agenda)
                    &&& *final(self) == *final(same)
                },
                Err(failure) => {
                    &&& r matches Err(e)
                    &&& e@ == failure
                    &&& final(self).index == old(self).index
                    &&& final(self).agenda@ == old(self).agenda@
                    &&& *final(final(self).agenda) == *final(old(self).agenda)
                },
            },
    {
        match self.agenda.jobs[self.index].schedule(s) {
            Ok(()) => Ok(self),
            Err(e) => Err(e),
        }
    }

    /// Pauses the job: it is not due while it is paused.
    pub fn pause(&mut self) -> (same: &mut JobOperator<'a, F>)
        requires
            old(self).wf(),
        ensures
            same.wf(),
            same.index == old(self).index,
            same.agenda@ == old(self).agenda@.update(
                same.index as int,
                Job { is_active: false, ..old(self).job() },
            ),
            *final(same.agenda) == *final(old(self).agenda),
            *final(self) == *final(same),
    {
        self.agenda.jobs[self.index].is_active = false;
        self
    }

    /// Resumes the job.
    pub fn resume(&mut self) -> (same: &mut JobOperator<'a, F>)
        requires
            old(self).wf(),
        ensures
            same.wf(),
            same.index == old(self).index,
            same.agenda@ == old(self).agenda@.update(
                same.index as int,
                Job { is_active: true, ..old(self).job() },
            ),
            *final(same.agenda) == *final(old(self).agenda),
            *final(self) == *final(same),
    {
        self.agenda.jobs[self.index].is_active = true;
        self
    }

    /// Removes the job from the agenda.
    pub fn remove(self)
        requires
            self.wf(),
        ensures
            final(self.agenda)@ == old(self.agenda)@.remove(self.index as int),
            final(self.agenda).wf(),
    {
        self.agenda.jobs.remove(self.index);
    }
}

impl<'a, F: FnMut()> JobBuilder<'a, F> {
    /// The view points at a job of a well-formed agenda.
    pub open spec fn wf(self) -> bool {
        self.index < self.agenda@.len() && self.agenda.wf()
    }

    /// The job that the view points at.
    pub open spec fn job(self) -> Job<F> {
        self.agenda@[self.index as int]
    }

    /// Gives the job the name `name`.
    pub fn with_name(&mut self, name: &str) -> (same: &mut JobBuilder<'a, F>)
        requires
            old(self).wf(),
        ensures
            same.wf(),
            same.index == old(self).index,
            is_named(same.job(), name@),
            same.agenda@ == old(self).agenda@.update(
                same.index as int,
                Job { name: same.job().name, ..old(self).job() },
            ),
            *final(same.agenda) == *final(old(self).agenda),
            *final(self) == *final(same),
    {
        self.agenda.jobs[self.index].name = Some(name.to_owned());
        self
    }

    /// Sets the schedule of the job to the one that `s` converts to, and
    /// gives the view to operate on the job. Where `s` converts to none,
    /// the job stays as it is.
    pub fn schedule<S: TryIntoSchedule>(self, s: S) -> (r: Result<JobOperator<'a, F>, Error>)
        requires
            self.wf(),
        ensures
            match s.conversion() {
                Ok(schedule) => {
                    &&& r matches Ok(operator)
                    &&& operator.wf()
                    &&& operator.index == self.index
                    &&& operator.agenda@ == old(self.agenda)@.update(
                        operator.index as int,
                        operator.job(),
                    )
                    &&& exists|now: Timestamp|
                        now.wf() && #[trigger] operator.job().is_rescheduled(
                            self.job(),
                            schedule,
                            now,
                        )
                    &&& *final(operator.agenda) == *final(self.agenda)
                },
                Err(failure) => {
                    &&& r matches Err(e)
                    &&& e@ == failure
                    &&& final(self.agenda)@ == old(self.agenda)@
                },
            },
    {
        match self.agenda.jobs[self.index].schedule(s) {
            Ok(()) => Ok(JobOperator { agenda: self.agenda, index: self.index }),
            Err(e) => Err(e),
        }
    }
}

} // verus!
