//! From the fields of a cron expression to the sets of values that a
//! schedule accepts.

use crate::constraint::{admits, interval, ConstraintSet};
use crate::cron::{CronSchedule, CronView};
use crate::error::Error;
use crate::parser::Field;
use vstd::prelude::*;

verus! {

/// The values that a field stands for. A wildcard stands for the empty set,
/// which leaves its unit free. So does a range whose end lies before its
/// start.
pub open spec fn field_values(field: Field) -> Set<u32> {
    match field {
        Field::All => Set::empty(),
        Field::Number(n) => set![n],
        Field::Range { start, end } => interval(start, end),
    }
}

/// The day of the week, counted from 0 for Monday, that an expression
/// writes as `written`: there 0 is Sunday and 1 is Monday. A 7 is Sunday
/// too.
pub open spec fn weekday_index(written: u32) -> u32 {
    if written == 0 {
        6
    } else {
        (written - 1) as u32
    }
}

/// The days of the week that a field stands for, counted from 0 for Monday.
pub open spec fn weekday_values(field: Field) -> Set<u32> {
    Set::new(|day: u32| exists|written: u32| #[trigger]
            field_values(field).contains(written) && weekday_index(written) == day)
}

/// The schedule that the fields of an expression stand for. Five fields are
/// minute, hour, day of the month, month and day of the week, and the
/// second is 0; six fields have the second before them. Any other number
/// of fields stands for no schedule.
pub open spec fn resolved(fields: Seq<Field>) -> Option<CronView> {
    if fields.len() == 5 || fields.len() == 6 {
        let first = fields.len() - 5;
        Some(
            CronView {
                seconds: if fields.len() == 6 {
                    field_values(fields[0])
                } else {
                    set![0u32]
                },
                minutes: field_values(fields[first]),
                hours: field_values(fields[first + 1]),
                days_of_month: field_values(fields[first + 2]),
                months: field_values(fields[first + 3]),
                days_of_week: weekday_values(fields[first + 4]),
            },
        )
    } else {
        None
    }
}

/// The set of values that a field stands for.
pub fn values_of(field: &Field) -> (set: ConstraintSet)
    ensures
        set@ == field_values(*field),
{
    let mut set = ConstraintSet::new();
    match field {
        Field::All => {},
        Field::Number(n) => {
            set.insert(*n);
            assert(set@ =~= field_values(*field));
        },
        Field::Range { start, end } => {
            set.insert_range(*start, *end);
            assert(set@ =~= field_values(*field));
        },
    }
    set
}

/// The set of days of the week that a field stands for, counted from 0 for
/// Monday.
pub fn weekdays_of(field: &Field) -> (set: ConstraintSet)
    ensures
        set@ == weekday_values(*field),
{
    let mut set = ConstraintSet::new();
    match field {
        Field::All => {},
        Field::Number(n) => {
            if *n == 0 {
                set.insert(6);
            } else {
                set.insert(*n - 1);
            }
            assert(field_values(*field).contains(*n));
        },
        Field::Range { start, end } => {
            if *start <= *end {
                if *start == 0 {
                    set.insert(6);
                    if *end >= 1 {
                        set.insert_range(0, *end - 1);
                    }
                } else {
                    set.insert_range(*start - 1, *end - 1);
                }
            }
            assert forall|day: u32| set@.contains(day) implies weekday_values(*field).contains(
                day,
            ) by {
                let written: u32 = if day == 6 && *start == 0 {
                    0
                } else {
                    (day + 1) as u32
                };
                assert(field_values(*field).contains(written) && weekday_index(written) == day);
            }
        },
    }
    assert(set@ =~= weekday_values(*field));
    set
}

/// Makes the schedule that the fields of an expression stand for. Fails on
/// a number of fields other than five and six, with that number.
///
/// The values are taken as they are written: a value that its unit never
/// takes, such as an hour 99, is accepted here, and the schedule never fires
/// on it.
pub fn resolve(fields: &Vec<Field>) -> (r: Result<CronSchedule, Error>)
    ensures
        match r {
            Ok(schedule) => resolved(fields@) == Some(schedule@),
            Err(e) => resolved(fields@) is None && e == Error::FieldCount(fields@.len() as usize),
        },
{
    let count = fields.len();
    if count != 5 && count != 6 {
        return Err(Error::FieldCount(count));
    }
    let first: usize = count - 5;
    let seconds = if count == 6 {
        values_of(&fields[0])
    } else {
        let mut zero = ConstraintSet::new();
        zero.insert(0);
        assert(zero@ =~= set![0u32]);
        zero
    };
    let schedule = CronSchedule {
        seconds,
        minutes: values_of(&fields[first]),
        hours: values_of(&fields[first + 1]),
        days_of_month: values_of(&fields[first + 2]),
        months: values_of(&fields[first + 3]),
        days_of_week: weekdays_of(&fields[first + 4]),
    };
    assert(schedule@ =~= resolved(fields@).unwrap());
    Ok(schedule)
}

/// A wildcard leaves its unit unconstrained: the set of a field `*` is
/// empty, be it read as values or as days of the week, and an empty set
/// accepts every value.
pub proof fn lemma_wildcard_accepts_all(value: u32)
    ensures
        field_values(Field::All) == Set::<u32>::empty(),
        weekday_values(Field::All) == Set::<u32>::empty(),
        admits(Set::<u32>::empty(), value),
{
    assert(weekday_values(Field::All) =~= Set::<u32>::empty());
}

/// In the schedule of an expression, each unit that the expression writes
/// as `*` has the empty set.
pub proof fn lemma_wildcard_units(fields: Seq<Field>)
    requires
        resolved(fields) is Some,
    ensures
        ({
            let first = fields.len() - 5;
            let cron = resolved(fields).unwrap();
            &&& fields.len() == 6 && fields[0] is All ==> cron.seconds == Set::<u32>::empty()
            &&& fields[first] is All ==> cron.minutes == Set::<u32>::empty()
            &&& fields[first + 1] is All ==> cron.hours == Set::<u32>::empty()
            &&& fields[first + 2] is All ==> cron.days_of_month == Set::<u32>::empty()
            &&& fields[first + 3] is All ==> cron.months == Set::<u32>::empty()
            &&& fields[first + 4] is All ==> cron.days_of_week == Set::<u32>::empty()
        }),
{
    lemma_wildcard_accepts_all(0);
}

/// A range stands for the values from its start to its end, both included,
/// and for no other; a number stands for itself alone.
pub proof fn lemma_field_values(field: Field, value: u32)
    ensures
        field matches Field::Range { start, end } ==> (field_values(field).contains(value) <==> start
            <= value <= end),
        field matches Field::Number(n) ==> (field_values(field).contains(value) <==> value == n),
{
}

/// Days of the week are written from 0 for Sunday and held from 0 for
/// Monday: a written 0 is held as 6, a written 1 to 6 as 0 to 5. A single
/// written day stands for the one day that it is held as; a range stands
/// for the days that the values from its start to its end are held as.
pub proof fn lemma_weekday_numbering(field: Field, written: u32, day: u32)
    ensures
        weekday_index(0) == 6,
        1 <= written <= 6 ==> weekday_index(written) == written - 1,
        field matches Field::Number(n) ==> (weekday_values(field).contains(day) <==> day
            == weekday_index(n)),
        field matches Field::Range { start, end } ==> (weekday_values(field).contains(day) <==> exists|
            w: u32,
        |
            start <= w <= end && #[trigger] weekday_index(w) == day),
{
    match field {
        Field::Number(n) => {
            assert(field_values(field).contains(n));
        },
        Field::Range { start, end } => {
            if weekday_values(field).contains(day) {
                let w = choose|w: u32| #[trigger]
                    field_values(field).contains(w) && weekday_index(w) == day;
                assert(start <= w <= end && weekday_index(w) == day);
            }
            if exists|w: u32| start <= w <= end && #[trigger] weekday_index(w) == day {
                let w = choose|w: u32| start <= w <= end && #[trigger] weekday_index(w) == day;
                assert(field_values(field).contains(w));
            }
        },
        Field::All => {},
    }
}

} // verus!
