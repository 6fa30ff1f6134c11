use schedule::calendar::{Civil, MAX_SECS, MAX_YEAR, MIN_SECS};
use schedule::constraint::ConstraintSet;
use schedule::cron::CronSchedule;
use schedule::resolver::{resolve, values_of, weekdays_of};
use schedule::error::Error;
use schedule::parser::{parse, Field};
use schedule::timestamp::Timestamp;

fn at(year: i32, month: u32, day: u32, hour: u32, minute: u32, second: u32) -> Timestamp {
    Timestamp::from_civil(&Civil { year, month, day, hour, minute, second }).unwrap()
}

fn cron(text: &str) -> CronSchedule {
    resolve(&parse(text.as_bytes()).unwrap()).unwrap()
}

fn members(set: &ConstraintSet, upto: u32) -> Vec<u32> {
    (0..=upto).filter(|v| set.contains(*v)).collect()
}

/// The first second behind `after` that the schedule accepts, found by
/// trying one second after the other.
fn next_by_search(schedule: &CronSchedule, after: &Timestamp, seconds: i64) -> Option<Timestamp> {
    for secs in after.secs + 1..=after.secs + seconds {
        if schedule.accepts(&Civil::from_secs(secs)) {
            return Some(Timestamp { secs, nanos: 0 });
        }
    }
    None
}

#[test]
fn five_fields_leave_the_second_at_zero() {
    let schedule = cron("1 2 3 4 *");
    assert_eq!(members(&schedule.seconds, 100), vec![0]);
    assert_eq!(members(&schedule.minutes, 100), vec![1]);
    assert_eq!(members(&schedule.hours, 100), vec![2]);
    assert_eq!(members(&schedule.days_of_month, 100), vec![3]);
    assert_eq!(members(&schedule.months, 100), vec![4]);
    assert!(schedule.days_of_week.is_empty());
}

#[test]
fn six_fields_begin_with_the_second() {
    let schedule = cron("30 1 2 3 4 5");
    assert_eq!(members(&schedule.seconds, 100), vec![30]);
    assert_eq!(members(&schedule.minutes, 100), vec![1]);
    assert_eq!(members(&schedule.hours, 100), vec![2]);
    assert_eq!(members(&schedule.days_of_month, 100), vec![3]);
    assert_eq!(members(&schedule.months, 100), vec![4]);
    assert_eq!(members(&schedule.days_of_week, 100), vec![4]);
}

#[test]
fn any_other_number_of_fields_is_refused() {
    for count in [0usize, 1, 2, 3, 4, 7, 8, 20] {
        let fields = vec![Field::All; count];
        assert_eq!(resolve(&fields).unwrap_err(), Error::FieldCount(count));
    }
    assert!(resolve(&vec![Field::All; 5]).is_ok());
    assert!(resolve(&vec![Field::All; 6]).is_ok());
    let four = parse(b"1 2 3 4").unwrap();
    assert_eq!(resolve(&four).unwrap_err(), Error::FieldCount(4));
}

#[test]
fn a_wildcard_leaves_its_set_empty_and_accepts_every_value() {
    let schedule = cron("* * * * * *");
    for set in [
        &schedule.seconds,
        &schedule.minutes,
        &schedule.hours,
        &schedule.days_of_month,
        &schedule.months,
        &schedule.days_of_week,
    ] {
        assert!(set.is_empty());
        assert_eq!(members(set, 100), Vec::<u32>::new());
        for value in [0, 1, 6, 12, 23, 31, 59, 60, 1000, u32::MAX] {
            assert!(set.accepts(value));
        }
    }
    assert!(values_of(&Field::All).is_empty());
    assert!(weekdays_of(&Field::All).is_empty());
}

#[test]
fn a_range_holds_its_ends_and_all_between() {
    let schedule = cron("10-15 * * * *");
    assert_eq!(members(&schedule.minutes, 100), vec![10, 11, 12, 13, 14, 15]);
    assert!(!schedule.minutes.contains(9));
    assert!(!schedule.minutes.contains(16));
    assert!(!schedule.minutes.is_empty());
    assert!(!schedule.minutes.accepts(9));
    assert!(schedule.minutes.accepts(10));
    let set = values_of(&Field::Range { start: 10, end: 15 });
    assert_eq!(members(&set, 100), vec![10, 11, 12, 13, 14, 15]);
}

#[test]
fn a_range_that_ends_before_it_starts_is_empty() {
    let set = values_of(&Field::Range { start: 5, end: 3 });
    assert!(set.is_empty());
    assert!(set.accepts(4));
    assert!(set.accepts(99));
    assert!(weekdays_of(&Field::Range { start: 5, end: 3 }).is_empty());
}

#[test]
fn a_wide_range_is_held_without_listing_it() {
    let set = values_of(&Field::Range { start: 0, end: u32::MAX });
    assert!(set.contains(0));
    assert!(set.contains(123_456_789));
    assert!(set.contains(u32::MAX));
    let days = weekdays_of(&Field::Range { start: 0, end: u32::MAX });
    assert!(days.contains(u32::MAX - 1));
    assert!(days.contains(6));
    assert!(!days.contains(u32::MAX));
}

#[test]
fn days_of_the_week_are_counted_from_monday() {
    let expected = [6, 0, 1, 2, 3, 4, 5];
    for written in 0..=6u32 {
        let set = weekdays_of(&Field::Number(written));
        assert_eq!(members(&set, 100), vec![expected[written as usize]]);
    }
    assert_eq!(members(&weekdays_of(&Field::Number(7)), 100), vec![6]);
    assert_eq!(members(&weekdays_of(&Field::Number(9)), 100), vec![8]);
}

#[test]
fn ranges_of_days_of_the_week_are_counted_from_monday() {
    assert_eq!(members(&weekdays_of(&Field::Range { start: 0, end: 6 }), 100), vec![0, 1, 2, 3, 4, 5, 6]);
    assert_eq!(members(&weekdays_of(&Field::Range { start: 0, end: 0 }), 100), vec![6]);
    assert_eq!(members(&weekdays_of(&Field::Range { start: 0, end: 2 }), 100), vec![0, 1, 6]);
    assert_eq!(members(&weekdays_of(&Field::Range { start: 1, end: 5 }), 100), vec![0, 1, 2, 3, 4]);
    assert_eq!(members(&weekdays_of(&Field::Range { start: 6, end: 7 }), 100), vec![5, 6]);
    assert_eq!(members(&cron("* * * * 1-5").days_of_week, 100), vec![0, 1, 2, 3, 4]);
}

#[test]
fn sets_collapse_what_is_added_twice() {
    let mut set = ConstraintSet::new();
    assert!(set.is_empty());
    set.insert(5);
    set.insert(5);
    set.insert_range(4, 6);
    set.insert_range(9, 8);
    assert_eq!(members(&set, 100), vec![4, 5, 6]);
    assert!(!set.is_empty());
    assert!(!set.accepts(7));
}

#[test]
fn the_next_occurrence_meets_every_field() {
    let schedule = cron("1 2 3 4 *");
    let now = at(2024, 1, 1, 0, 0, 0);
    let next = schedule.next_after(&now, &now).unwrap();
    assert_eq!(next, at(2024, 4, 3, 2, 1, 0));
    let later = schedule.next_after(&next, &now).unwrap();
    assert_eq!(later, at(2025, 4, 3, 2, 1, 0));
}

#[test]
fn every_second_fires_one_second_later() {
    let schedule = cron("* * * * * *");
    let now = at(2024, 1, 1, 0, 0, 0);
    let after = Timestamp::new(at(2024, 5, 6, 7, 8, 9).secs, 999_999_999).unwrap();
    assert_eq!(schedule.next_after(&after, &now), Some(at(2024, 5, 6, 7, 8, 10)));
    let whole = at(2024, 5, 6, 7, 8, 9);
    assert_eq!(schedule.next_after(&whole, &now), Some(at(2024, 5, 6, 7, 8, 10)));
}

#[test]
fn every_minute_fires_at_second_zero() {
    let schedule = cron("0 * * * * *");
    let now = at(2024, 1, 1, 0, 0, 0);
    assert_eq!(schedule.next_after(&at(2024, 5, 6, 7, 8, 9), &now), Some(at(2024, 5, 6, 7, 9, 0)));
    assert_eq!(schedule.next_after(&at(2024, 5, 6, 7, 9, 0), &now), Some(at(2024, 5, 6, 7, 10, 0)));
    let five = cron("* * * * *");
    assert_eq!(five.next_after(&at(2024, 5, 6, 7, 8, 9), &now), Some(at(2024, 5, 6, 7, 9, 0)));
}

#[test]
fn finer_units_start_over_when_a_coarser_one_advances() {
    let now = at(2024, 1, 1, 0, 0, 0);
    let after = at(2024, 5, 6, 7, 8, 9);
    assert_eq!(cron("* * * * 7 *").next_after(&after, &now), Some(at(2024, 7, 1, 0, 0, 0)));
    assert_eq!(cron("* * * 20 * *").next_after(&after, &now), Some(at(2024, 5, 20, 0, 0, 0)));
    assert_eq!(cron("* * 9 * * *").next_after(&after, &now), Some(at(2024, 5, 6, 9, 0, 0)));
    assert_eq!(cron("* 30 * * * *").next_after(&after, &now), Some(at(2024, 5, 6, 7, 30, 0)));
    assert_eq!(cron("30 * * * * *").next_after(&after, &now), Some(at(2024, 5, 6, 7, 8, 30)));
    assert_eq!(cron("5 * * * * *").next_after(&after, &now), Some(at(2024, 5, 6, 7, 9, 5)));
    assert_eq!(cron("* 5 * * * *").next_after(&after, &now), Some(at(2024, 5, 6, 8, 5, 0)));
    assert_eq!(cron("* * 5 * * *").next_after(&after, &now), Some(at(2024, 5, 7, 5, 0, 0)));
    assert_eq!(cron("* * * 5 * *").next_after(&after, &now), Some(at(2024, 6, 5, 0, 0, 0)));
    assert_eq!(cron("* * * * 3 *").next_after(&after, &now), Some(at(2025, 3, 1, 0, 0, 0)));
}

#[test]
fn the_search_carries_over_the_end_of_the_year() {
    let now = at(2023, 6, 1, 0, 0, 0);
    let eve = at(2023, 12, 31, 23, 59, 59);
    assert_eq!(cron("* * * * * *").next_after(&eve, &now), Some(at(2024, 1, 1, 0, 0, 0)));
    assert_eq!(cron("15 10 * * *").next_after(&eve, &now), Some(at(2024, 1, 1, 10, 15, 0)));
    assert_eq!(cron("0 0 1 1 *").next_after(&at(2023, 1, 1, 0, 0, 0), &now), Some(at(2024, 1, 1, 0, 0, 0)));
}

#[test]
fn the_29th_of_february_waits_for_a_leap_year() {
    let schedule = cron("0 0 29 2 *");
    let after = at(2021, 3, 1, 0, 0, 0);
    assert_eq!(schedule.next_after(&after, &at(2023, 6, 1, 0, 0, 0)), Some(at(2024, 2, 29, 0, 0, 0)));
    assert_eq!(schedule.next_after(&after, &at(2023, 1, 1, 0, 0, 0)), Some(at(2024, 2, 29, 0, 0, 0)));
    assert_eq!(schedule.next_after(&after, &at(2022, 12, 31, 23, 59, 59)), None);
    assert_eq!(schedule.next_after(&after, &at(2021, 3, 1, 0, 0, 0)), None);
    assert_eq!(schedule.next_after(&at(2096, 3, 1, 0, 0, 0), &at(2103, 1, 1, 0, 0, 0)), Some(at(2104, 2, 29, 0, 0, 0)));
}

#[test]
fn either_day_unit_suffices_where_both_are_given() {
    // Midnight of each first of a month and of each Monday.
    let schedule = cron("0 0 1 * 1");
    let now = at(2024, 1, 1, 0, 0, 0);
    assert_eq!(schedule.next_after(&at(2023, 12, 31, 12, 0, 0), &now), Some(at(2024, 1, 1, 0, 0, 0)));
    assert_eq!(schedule.next_after(&at(2024, 1, 2, 0, 0, 0), &now), Some(at(2024, 1, 8, 0, 0, 0)));
    assert_eq!(schedule.next_after(&at(2024, 1, 29, 0, 0, 0), &now), Some(at(2024, 2, 1, 0, 0, 0)));
    assert_eq!(schedule.next_after(&at(2024, 2, 1, 0, 0, 0), &now), Some(at(2024, 2, 5, 0, 0, 0)));
    let mut occurrence = at(2024, 1, 1, 0, 0, 0);
    let mut firsts = 0;
    let mut mondays = 0;
    while occurrence.secs < at(2025, 1, 1, 0, 0, 0).secs {
        let c = occurrence.to_civil();
        assert!(c.day == 1 || c.day_of_week() == 0);
        if c.day == 1 {
            firsts += 1;
        }
        if c.day_of_week() == 0 {
            mondays += 1;
        }
        occurrence = schedule.next_after(&occurrence, &now).unwrap();
    }
    assert_eq!(firsts, 12);
    assert_eq!(mondays, 53);
}

#[test]
fn one_day_unit_decides_where_the_other_is_free() {
    let now = at(2024, 1, 1, 0, 0, 0);
    let after = at(2024, 1, 2, 0, 0, 0);
    assert_eq!(cron("0 0 * * 1").next_after(&after, &now), Some(at(2024, 1, 8, 0, 0, 0)));
    assert_eq!(cron("0 0 1 * *").next_after(&after, &now), Some(at(2024, 2, 1, 0, 0, 0)));
    assert_eq!(cron("0 0 * * 0").next_after(&after, &now), Some(at(2024, 1, 7, 0, 0, 0)));
    assert_eq!(cron("0 0 * * 7").next_after(&after, &now), Some(at(2024, 1, 7, 0, 0, 0)));
    assert_eq!(cron("0 0 * * 6").next_after(&after, &now), Some(at(2024, 1, 6, 0, 0, 0)));
}

#[test]
fn the_next_occurrence_lies_behind_the_reference() {
    let now = at(2024, 1, 1, 0, 0, 0);
    for text in ["* * * * * *", "0 * * * * *", "1 2 3 4 *", "0 0 1 * 1", "59 59 23 31 12 *"] {
        let schedule = cron(text);
        for after in [
            at(2024, 4, 3, 2, 1, 0),
            at(2023, 12, 31, 23, 59, 59),
            at(2024, 2, 29, 12, 0, 0),
            Timestamp::new(1_712_109_660, 1).unwrap(),
            Timestamp::new(1_712_109_659, 999_999_999).unwrap(),
        ] {
            let next = schedule.next_after(&after, &now).unwrap();
            assert!(after.is_before(&next), "{} after {:?}", text, after);
            assert_eq!(next.nanos, 0);
            assert!(schedule.accepts(&next.to_civil()));
        }
    }
}

#[test]
fn a_date_that_no_year_has_gives_none() {
    let now = at(2024, 1, 1, 0, 0, 0);
    assert_eq!(cron("0 0 31 2 *").next_after(&now, &now), None);
    assert_eq!(cron("0 0 30 2 *").next_after(&now, &now), None);
    assert_eq!(cron("0 0 31 4 *").next_after(&now, &now), None);
    assert_eq!(cron("* * * 31 2 *").next_after(&at(1999, 1, 1, 0, 0, 0), &now), None);
}

#[test]
fn a_value_that_its_unit_never_takes_gives_none() {
    let now = at(2024, 1, 1, 0, 0, 0);
    for text in ["60 * * * * *", "* 60 * * * *", "* * 24 * * *", "* * * 32 * *", "* * * 0 * *", "* * * * 13 *", "* * * * 0 *", "* * * * * 8", "99 * * * *"] {
        assert_eq!(cron(text).next_after(&now, &now), None, "{}", text);
    }
}

#[test]
fn the_search_ends_two_calendar_years_after_the_present() {
    let schedule = cron("0 0 1 1 *");
    let now = at(2024, 12, 31, 23, 59, 59);
    assert_eq!(schedule.next_after(&at(2024, 6, 1, 0, 0, 0), &now), Some(at(2025, 1, 1, 0, 0, 0)));
    assert_eq!(schedule.next_after(&at(2025, 1, 1, 0, 0, 0), &now), None);
    assert_eq!(schedule.next_after(&at(2025, 12, 31, 23, 59, 59), &now), None);
    let last = cron("59 59 23 31 12 *");
    assert_eq!(last.next_after(&at(2025, 1, 1, 0, 0, 0), &now), Some(at(2025, 12, 31, 23, 59, 59)));
    assert_eq!(last.next_after(&at(2025, 12, 31, 23, 59, 59), &now), None);
    assert_eq!(cron("* * * * * *").next_after(&at(2026, 1, 1, 0, 0, 0), &now), None);
    assert_eq!(cron("* * * * * *").next_after(&at(2025, 12, 31, 23, 59, 59), &now), None);
    assert_eq!(cron("* * * * * *").next_after(&at(2025, 12, 31, 23, 59, 58), &now), Some(at(2025, 12, 31, 23, 59, 59)));
}

#[test]
fn a_reference_in_the_past_is_searched_from() {
    let now = at(2024, 1, 1, 0, 0, 0);
    let schedule = cron("0 0 1 1 *");
    assert_eq!(schedule.next_after(&at(1000, 6, 1, 0, 0, 0), &now), Some(at(1001, 1, 1, 0, 0, 0)));
    assert_eq!(schedule.next_after(&at(-5, 6, 1, 0, 0, 0), &now), Some(at(-4, 1, 1, 0, 0, 0)));
}

#[test]
fn the_search_ends_at_the_end_of_the_range() {
    let schedule = cron("* * * * * *");
    let last = Timestamp::new(MAX_SECS, 0).unwrap();
    let first = Timestamp::new(MIN_SECS, 0).unwrap();
    assert_eq!(schedule.next_after(&last, &last), None);
    let before_last = Timestamp::new(MAX_SECS - 1, 0).unwrap();
    assert_eq!(schedule.next_after(&before_last, &last), Some(last));
    assert_eq!(schedule.next_after(&first, &first), Timestamp::new(MIN_SECS + 1, 0));
    let never = cron("0 0 31 2 *");
    assert_eq!(never.next_after(&at(MAX_YEAR, 1, 1, 0, 0, 0), &last), None);
}

#[test]
fn the_next_occurrence_is_the_first_that_a_search_finds() {
    let now = at(2024, 1, 1, 0, 0, 0);
    let starts = [
        at(2024, 2, 28, 23, 58, 57),
        at(2024, 12, 31, 22, 0, 0),
        at(2023, 3, 4, 5, 6, 7),
    ];
    for text in [
        "* * * * * *", "0 * * * * *", "10-15 * * * * *", "30 59 * * * *", "0 0 0 * * *",
        "0 0 12 29 * *", "0 30 6 * * 3", "5 4 3 1 * 4", "0-5 0-5 23 * * *", "0 0 0 1 3 *",
        "59 59 23 * * 0", "* * * 1 * 1", "0 0 * * 1-5",
    ] {
        let schedule = cron(text);
        for after in starts.iter() {
            let found = next_by_search(&schedule, after, 3 * 86_400);
            let next = schedule.next_after(after, &now);
            match found {
                Some(t) => assert_eq!(next, Some(t), "{} after {:?}", text, after),
                None => {
                    if let Some(t) = next {
                        assert!(t.secs > after.secs + 3 * 86_400);
                    }
                },
            }
        }
    }
}

#[test]
fn accepts_tests_every_unit() {
    let schedule = cron("5 4 3 2 1 *");
    let c = Civil { year: 2024, month: 1, day: 2, hour: 3, minute: 4, second: 5 };
    assert!(schedule.accepts(&c));
    assert!(!schedule.accepts(&Civil { second: 6, ..c }));
    assert!(!schedule.accepts(&Civil { minute: 5, ..c }));
    assert!(!schedule.accepts(&Civil { hour: 4, ..c }));
    assert!(!schedule.accepts(&Civil { day: 3, ..c }));
    assert!(!schedule.accepts(&Civil { month: 2, ..c }));
    assert!(schedule.day_matches(&c));
    assert!(schedule.advance(&c).is_none());
    assert_eq!(
        schedule.advance(&Civil { month: 2, ..c }),
        Some(Civil { year: 2024, month: 3, day: 1, hour: 0, minute: 0, second: 0 })
    );
}
