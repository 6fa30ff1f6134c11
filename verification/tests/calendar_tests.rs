use chrono::{DateTime, Datelike, Timelike, Utc};
use schedule::calendar::{
    leap_year, month_length, month_offset, year_offset, Civil, MAX_DAY, MAX_SECS, MAX_YEAR,
    MIN_DAY, MIN_SECS, MIN_YEAR,
};

fn civil(year: i32, month: u32, day: u32, hour: u32, minute: u32, second: u32) -> Civil {
    Civil { year, month, day, hour, minute, second }
}

fn civil_by_chrono(secs: i64) -> Civil {
    let t: DateTime<Utc> = DateTime::from_timestamp(secs, 0).unwrap();
    civil(t.year(), t.month(), t.day(), t.hour(), t.minute(), t.second())
}

#[test]
fn leap_years_follow_the_gregorian_rule() {
    assert!(leap_year(2000));
    assert!(leap_year(2024));
    assert!(leap_year(0));
    assert!(leap_year(-4));
    assert!(leap_year(-400));
    assert!(!leap_year(1900));
    assert!(!leap_year(2100));
    assert!(!leap_year(2023));
    assert!(!leap_year(-1));
    assert!(!leap_year(-100));
}

#[test]
fn months_have_their_lengths() {
    let common = [31, 28, 31, 30, 31, 30, 31, 31, 30, 31, 30, 31];
    for month in 1..=12u32 {
        assert_eq!(month_length(2023, month), common[month as usize - 1]);
        let leap = if month == 2 { 29 } else { common[month as usize - 1] };
        assert_eq!(month_length(2024, month), leap);
    }
}

#[test]
fn month_offsets_add_up_the_lengths() {
    for year in [1900, 2000, 2023, 2024] {
        let mut days = 0;
        for month in 1..=12u32 {
            assert_eq!(month_offset(year, month), days);
            days += month_length(year, month);
        }
        assert_eq!(month_offset(year, 13), days);
        assert_eq!(days, if leap_year(year) { 366 } else { 365 });
    }
}

#[test]
fn year_offsets_count_from_1970() {
    assert_eq!(year_offset(1970), 0);
    assert_eq!(year_offset(1971), 365);
    assert_eq!(year_offset(1972), 730);
    assert_eq!(year_offset(1973), 1096);
    assert_eq!(year_offset(2000), 10_957);
    assert_eq!(year_offset(1969), -365);
    assert_eq!(year_offset(MIN_YEAR), MIN_DAY);
    assert_eq!(year_offset(MAX_YEAR + 1), MAX_DAY + 1);
}

#[test]
fn the_epoch_is_a_thursday() {
    let epoch = Civil::from_secs(0);
    assert_eq!(epoch, civil(1970, 1, 1, 0, 0, 0));
    assert_eq!(epoch.day_of_week(), 3);
    assert_eq!(epoch.to_secs(), 0);
}

#[test]
fn known_instants_have_their_dates() {
    assert_eq!(Civil::from_secs(951_782_400), civil(2000, 2, 29, 0, 0, 0));
    assert_eq!(Civil::from_secs(1_431_648_000), civil(2015, 5, 15, 0, 0, 0));
    assert_eq!(Civil::from_secs(-1), civil(1969, 12, 31, 23, 59, 59));
    assert_eq!(Civil::from_secs(1_709_251_199), civil(2024, 2, 29, 23, 59, 59));
    assert_eq!(Civil::from_secs(1_709_251_200), civil(2024, 3, 1, 0, 0, 0));
    assert_eq!(civil(2015, 5, 15, 12, 34, 56).to_secs(), 1_431_648_000 + 12 * 3600 + 34 * 60 + 56);
}

#[test]
fn the_range_ends_where_that_of_chrono_ends() {
    assert_eq!(MIN_SECS, DateTime::<Utc>::MIN_UTC.timestamp());
    assert_eq!(MAX_SECS, DateTime::<Utc>::MAX_UTC.timestamp());
    assert_eq!(Civil::from_secs(MIN_SECS), civil(MIN_YEAR, 1, 1, 0, 0, 0));
    assert_eq!(Civil::from_secs(MAX_SECS), civil(MAX_YEAR, 12, 31, 23, 59, 59));
    assert_eq!(civil(MIN_YEAR, 1, 1, 0, 0, 0).to_secs(), MIN_SECS);
    assert_eq!(civil(MAX_YEAR, 12, 31, 23, 59, 59).to_secs(), MAX_SECS);
    assert_eq!(civil(MAX_YEAR + 1, 1, 1, 0, 0, 0).to_secs(), MAX_SECS + 1);
}

#[test]
fn dates_agree_with_chrono_across_the_range() {
    // A stride that is prime to the lengths of the day, the week and the
    // 400-year cycle walks through all times of day and days of the week.
    let stride: i64 = 4_001 * 7_919;
    let mut secs = MIN_SECS;
    let mut count = 0;
    while secs <= MAX_SECS {
        let c = Civil::from_secs(secs);
        assert_eq!(c, civil_by_chrono(secs), "at {}", secs);
        assert!(c.is_valid());
        assert_eq!(c.to_secs(), secs);
        let by_chrono = DateTime::from_timestamp(secs, 0).unwrap().weekday().num_days_from_monday();
        assert_eq!(c.day_of_week(), by_chrono, "at {}", secs);
        secs += stride;
        count += 1;
    }
    assert!(count > 500_000);
}

#[test]
fn dates_agree_with_chrono_day_by_day() {
    // Every day from 1890 to 2110, which holds the years 1900, 2000 and 2100.
    let first = civil(1890, 1, 1, 12, 0, 0).to_secs();
    let last = civil(2110, 1, 1, 12, 0, 0).to_secs();
    let mut secs = first;
    while secs <= last {
        assert_eq!(Civil::from_secs(secs), civil_by_chrono(secs));
        secs += 86_400;
    }
}

#[test]
fn validity_follows_the_calendar() {
    assert!(civil(2024, 2, 29, 0, 0, 0).is_valid());
    assert!(!civil(2023, 2, 29, 0, 0, 0).is_valid());
    assert!(!civil(2023, 4, 31, 0, 0, 0).is_valid());
    assert!(!civil(2023, 0, 1, 0, 0, 0).is_valid());
    assert!(!civil(2023, 13, 1, 0, 0, 0).is_valid());
    assert!(!civil(2023, 1, 0, 0, 0, 0).is_valid());
    assert!(!civil(2023, 1, 1, 24, 0, 0).is_valid());
    assert!(!civil(2023, 1, 1, 0, 60, 0).is_valid());
    assert!(!civil(2023, 1, 1, 0, 0, 60).is_valid());
    assert!(!civil(MAX_YEAR + 1, 1, 1, 0, 0, 0).is_valid());
    assert!(!civil(MIN_YEAR - 1, 12, 31, 0, 0, 0).is_valid());
    assert!(civil(MAX_YEAR, 12, 31, 23, 59, 59).is_valid());
}

#[test]
fn the_following_unit_begins_at_its_first_second() {
    let c = civil(2023, 12, 31, 23, 59, 59);
    let new_year = civil(2024, 1, 1, 0, 0, 0);
    assert_eq!(c.next_second(), new_year);
    assert_eq!(c.next_minute(), new_year);
    assert_eq!(c.next_hour(), new_year);
    assert_eq!(c.next_day(), new_year);
    assert_eq!(c.next_month(), new_year);
    let d = civil(2024, 2, 28, 10, 20, 30);
    assert_eq!(d.next_second(), civil(2024, 2, 28, 10, 20, 31));
    assert_eq!(d.next_minute(), civil(2024, 2, 28, 10, 21, 0));
    assert_eq!(d.next_hour(), civil(2024, 2, 28, 11, 0, 0));
    assert_eq!(d.next_day(), civil(2024, 2, 29, 0, 0, 0));
    assert_eq!(d.next_month(), civil(2024, 3, 1, 0, 0, 0));
    assert_eq!(civil(2023, 2, 28, 10, 20, 30).next_day(), civil(2023, 3, 1, 0, 0, 0));
}

#[test]
fn the_following_second_lies_one_second_later() {
    let mut secs = civil(2023, 12, 31, 23, 0, 0).to_secs();
    let end = civil(2024, 1, 1, 1, 0, 0).to_secs();
    while secs < end {
        assert_eq!(Civil::from_secs(secs).next_second().to_secs(), secs + 1);
        secs += 1;
    }
}
