//! The proleptic Gregorian calendar in UTC: civil dates and times of day, and
//! their position on the line of seconds counted from 1970-01-01T00:00:00.

use vstd::prelude::*;

verus! {

/// First year that a timestamp of this library can lie in.
pub const MIN_YEAR: i32 = -262_143;

/// Last year that a timestamp of this library can lie in.
pub const MAX_YEAR: i32 = 262_142;

/// Day number of the first of January of [`MIN_YEAR`].
pub const MIN_DAY: i64 = -96_465_292;

/// Day number of the 31st of December of [`MAX_YEAR`].
pub const MAX_DAY: i64 = 95_026_236;

/// First second of [`MIN_YEAR`], in seconds from the epoch.
pub const MIN_SECS: i64 = -8_334_601_228_800;

/// Last second of [`MAX_YEAR`], in seconds from the epoch.
pub const MAX_SECS: i64 = 8_210_266_876_799;

/// Whether `year` has a 29th of February.
pub open spec fn is_leap_year(year: int) -> bool {
    year % 4 == 0 && (year % 100 != 0 || year % 400 == 0)
}

/// Number of days in `year`.
pub open spec fn days_in_year(year: int) -> int {
    if is_leap_year(year) {
        366
    } else {
        365
    }
}

/// Number of days in `month` (1 = January) of `year`.
pub open spec fn days_in_month(year: int, month: int) -> int {
    if month == 2 {
        if is_leap_year(year) {
            29
        } else {
            28
        }
    } else if month == 4 || month == 6 || month == 9 || month == 11 {
        30
    } else {
        31
    }
}

/// Number of days of `year` that lie before the first of `month`.
pub open spec fn days_before_month(year: int, month: int) -> int
    decreases month,
{
    if month <= 1 {
        0
    } else {
        days_before_month(year, month - 1) + days_in_month(year, month - 1)
    }
}

/// Number of leap years among the years `1..=year`; for `year < 1`, minus the
/// number of leap years among `year + 1..=0`.
pub open spec fn leap_years_through(year: int) -> int {
    year / 4 - year / 100 + year / 400
}

/// Day number of the first of January of `year`, with 1970-01-01 as day 0.
pub open spec fn days_before_year(year: int) -> int {
    365 * (year - 1970) + leap_years_through(year - 1) - leap_years_through(1969)
}

/// Day of the week of the day with number `day`: 0 is Monday, 6 is Sunday.
pub open spec fn weekday_of_day(day: int) -> int {
    (day + 3) % 7
}

/// Each year begins where the one before it ends, and 1970 begins on day 0.
pub proof fn lemma_year_step(year: int)
    ensures
        days_before_year(1970) == 0,
        days_before_year(year + 1) == days_before_year(year) + days_in_year(year),
{
    assert(year / 4 - (year - 1) / 4 == if year % 4 == 0 { 1int } else { 0int });
    assert(year / 100 - (year - 1) / 100 == if year % 100 == 0 { 1int } else { 0int });
    assert(year / 400 - (year - 1) / 400 == if year % 400 == 0 { 1int } else { 0int });
    assert(year % 400 == 0 ==> year % 100 == 0);
    assert(year % 100 == 0 ==> year % 4 == 0);
}

/// The days of the week follow each other in a cycle of seven, and day 0,
/// 1970-01-01, is a Thursday.
pub proof fn lemma_weekdays_cycle(day: int)
    ensures
        weekday_of_day(0) == 3,
        0 <= weekday_of_day(day) < 7,
        weekday_of_day(day + 1) == (weekday_of_day(day) + 1) % 7,
        weekday_of_day(day + 7) == weekday_of_day(day),
{
}

/// A later year begins on a later day.
pub proof fn lemma_years_ascend(earlier: int, later: int)
    requires
        earlier <= later,
    ensures
        days_before_year(earlier) + 365 * (later - earlier) <= days_before_year(later),
    decreases later - earlier,
{
    if earlier < later {
        lemma_years_ascend(earlier, later - 1);
        lemma_year_step(later - 1);
    }
}

/// Months ascend: the days before a later month are at least those before an
/// earlier one.
pub proof fn lemma_months_ascend(year: int, earlier: int, later: int)
    requires
        1 <= earlier <= later,
    ensures
        days_before_month(year, earlier) <= days_before_month(year, later),
    decreases later - earlier,
{
    if earlier < later {
        lemma_months_ascend(year, earlier, later - 1);
    }
}

/// The days before each month, month by month; the thirteenth entry is the
/// length of the year.
pub proof fn lemma_days_before_month(year: int)
    ensures
        days_before_month(year, 1) == 0,
        days_before_month(year, 2) == 31,
        days_before_month(year, 3) == days_in_year(year) - 306,
        days_before_month(year, 4) == days_in_year(year) - 275,
        days_before_month(year, 5) == days_in_year(year) - 245,
        days_before_month(year, 6) == days_in_year(year) - 214,
        days_before_month(year, 7) == days_in_year(year) - 184,
        days_before_month(year, 8) == days_in_year(year) - 153,
        days_before_month(year, 9) == days_in_year(year) - 122,
        days_before_month(year, 10) == days_in_year(year) - 92,
        days_before_month(year, 11) == days_in_year(year) - 61,
        days_before_month(year, 12) == days_in_year(year) - 31,
        days_before_month(year, 13) == days_in_year(year),
{
    reveal_with_fuel(days_before_month, 14);
}

/// The range constants are the ends of the first and of the last year.
pub proof fn lemma_range_constants()
    ensures
        days_before_year(MIN_YEAR as int) == MIN_DAY,
        days_before_year(MAX_YEAR + 1) == MAX_DAY + 1,
        MIN_SECS == MIN_DAY * 86_400,
        MAX_SECS == (MAX_DAY + 1) * 86_400 - 1,
{
}

/// Executable form of [`is_leap_year`].
pub fn leap_year(year: i32) -> (r: bool)
    ensures
        r == is_leap_year(year as int),
{
    year % 4 == 0 && (year % 100 != 0 || year % 400 == 0)
}

/// Executable form of [`days_in_month`].
pub fn month_length(year: i32, month: u32) -> (r: u32)
    ensures
        r == days_in_month(year as int, month as int),
{
    if month == 2 {
        if leap_year(year) {
            29
        } else {
            28
        }
    } else if month == 4 || month == 6 || month == 9 || month == 11 {
        30
    } else {
        31
    }
}

/// Executable form of [`days_before_month`], for the months of a year and the
/// position just behind them.
pub fn month_offset(year: i32, month: u32) -> (r: u32)
    requires
        1 <= month <= 13,
    ensures
        r == days_before_month(year as int, month as int),
{
    proof {
        lemma_days_before_month(year as int);
    }
    let leap: u32 = if leap_year(year) {
        1
    } else {
        0
    };
    if month == 1 {
        0
    } else if month == 2 {
        31
    } else if month == 3 {
        59 + leap
    } else if month == 4 {
        90 + leap
    } else if month == 5 {
        120 + leap
    } else if month == 6 {
        151 + leap
    } else if month == 7 {
        181 + leap
    } else if month == 8 {
        212 + leap
    } else if month == 9 {
        243 + leap
    } else if month == 10 {
        273 + leap
    } else if month == 11 {
        304 + leap
    } else if month == 12 {
        334 + leap
    } else {
        365 + leap
    }
}

/// Executable form of [`days_before_year`], for the years of the supported
/// range and the one behind them.
pub fn year_offset(year: i32) -> (r: i64)
    requires
        MIN_YEAR <= year <= MAX_YEAR + 1,
    ensures
        r == days_before_year(year as int),
{
    // Years counted from a multiple of 400 below the range, so that the
    // divisions are taken on a number that is not negative.
    let shifted: i64 = (year as i64) - 1 + 262_400;
    let by_4: i64 = shifted / 4;
    let by_100: i64 = shifted / 100;
    let by_400: i64 = shifted / 400;
    proof {
        let before = year - 1;
        assert(by_4 == before / 4 + 65_600);
        assert(by_100 == before / 100 + 2_624);
        assert(by_400 == before / 400 + 656);
    }
    let leaps: i64 = by_4 - by_100 + by_400 - 63_632;
    365 * ((year as i64) - 1970) + leaps - 477
}

/// A civil date and time of day in UTC.
#[derive(Clone, Copy, Debug, PartialEq, Eq, Structural)]
pub struct Civil {
    pub year: i32,
    /// 1 is January.
    pub month: u32,
    /// Day of the month, from 1.
    pub day: u32,
    pub hour: u32,
    pub minute: u32,
    pub second: u32,
}

impl Civil {
    /// The fields name a day that the calendar has and a time of day.
    pub open spec fn valid(self) -> bool {
        &&& 1 <= self.month <= 12
        &&& 1 <= self.day <= days_in_month(self.year as int, self.month as int)
        &&& self.hour < 24
        &&& self.minute < 60
        &&& self.second < 60
    }

    /// Valid, and in a year of the supported range.
    pub open spec fn wf(self) -> bool {
        self.valid() && MIN_YEAR <= self.year <= MAX_YEAR
    }

    /// Number of the day, with 1970-01-01 as day 0.
    pub open spec fn day_number(self) -> int {
        days_before_year(self.year as int) + days_before_month(
            self.year as int,
            self.month as int,
        ) + self.day - 1
    }

    /// Seconds of the day that lie before this time of day.
    pub open spec fn second_of_day(self) -> int {
        self.hour * 3600 + self.minute * 60 + self.second
    }

    /// Seconds from 1970-01-01T00:00:00 to this date and time.
    pub open spec fn instant(self) -> int {
        self.day_number() * 86_400 + self.second_of_day()
    }

    /// Day of the week: 0 is Monday, 6 is Sunday.
    pub open spec fn weekday(self) -> int {
        weekday_of_day(self.day_number())
    }

    /// Lexicographic order on the fields, from the year down to the second.
    pub open spec fn precedes(self, other: Civil) -> bool {
        ||| self.year < other.year
        ||| self.year == other.year && self.month < other.month
        ||| self.year == other.year && self.month == other.month && self.day < other.day
        ||| self.year == other.year && self.month == other.month && self.day == other.day
            && self.second_of_day() < other.second_of_day()
    }

    /// The first second of the month that follows the month of `self`.
    pub open spec fn following_month(self) -> Civil {
        if self.month == 12 {
            Civil { year: (self.year + 1) as i32, month: 1, day: 1, hour: 0, minute: 0, second: 0 }
        } else {
            Civil {
                year: self.year,
                month: (self.month + 1) as u32,
                day: 1,
                hour: 0,
                minute: 0,
                second: 0,
            }
        }
    }

    /// The first second of the day that follows the day of `self`.
    pub open spec fn following_day(self) -> Civil {
        if self.day < days_in_month(self.year as int, self.month as int) {
            Civil { day: (self.day + 1) as u32, hour: 0, minute: 0, second: 0, ..self }
        } else {
            self.following_month()
        }
    }

    /// The first second of the hour that follows the hour of `self`.
    pub open spec fn following_hour(self) -> Civil {
        if self.hour < 23 {
            Civil { hour: (self.hour + 1) as u32, minute: 0, second: 0, ..self }
        } else {
            self.following_day()
        }
    }

    /// The first second of the minute that follows the minute of `self`.
    pub open spec fn following_minute(self) -> Civil {
        if self.minute < 59 {
            Civil { minute: (self.minute + 1) as u32, second: 0, ..self }
        } else {
            self.following_hour()
        }
    }

    /// The second that follows `self`.
    pub open spec fn following_second(self) -> Civil {
        if self.second < 59 {
            Civil { second: (self.second + 1) as u32, ..self }
        } else {
            self.following_minute()
        }
    }

    /// Whether `self` and `other` lie in the same month of the same year.
    pub open spec fn same_month(self, other: Civil) -> bool {
        self.year == other.year && self.month == other.month
    }

    /// Whether `self` and `other` lie on the same day.
    pub open spec fn same_day(self, other: Civil) -> bool {
        self.same_month(other) && self.day == other.day
    }

    /// Whether `self` and `other` lie in the same hour of the same day.
    pub open spec fn same_hour(self, other: Civil) -> bool {
        self.same_day(other) && self.hour == other.hour
    }

    /// Whether `self` and `other` lie in the same minute of the same hour.
    pub open spec fn same_minute(self, other: Civil) -> bool {
        self.same_hour(other) && self.minute == other.minute
    }

    /// The first second of the month that follows the month of `self`.
    pub fn next_month(&self) -> (r: Civil)
        requires
            self.wf(),
        ensures
            r == self.following_month(),
    {
        if self.month == 12 {
            Civil { year: self.year + 1, month: 1, day: 1, hour: 0, minute: 0, second: 0 }
        } else {
            Civil {
                year: self.year,
                month: self.month + 1,
                day: 1,
                hour: 0,
                minute: 0,
                second: 0,
            }
        }
    }

    /// The first second of the day that follows the day of `self`.
    pub fn next_day(&self) -> (r: Civil)
        requires
            self.wf(),
        ensures
            r == self.following_day(),
    {
        if self.day < month_length(self.year, self.month) {
            Civil {
                year: self.year,
                month: self.month,
                day: self.day + 1,
                hour: 0,
                minute: 0,
                second: 0,
            }
        } else {
            self.next_month()
        }
    }

    /// The first second of the hour that follows the hour of `self`.
    pub fn next_hour(&self) -> (r: Civil)
        requires
            self.wf(),
        ensures
            r == self.following_hour(),
    {
        if self.hour < 23 {
            Civil {
                year: self.year,
                month: self.month,
                day: self.day,
                hour: self.hour + 1,
                minute: 0,
                second: 0,
            }
        } else {
            self.next_day()
        }
    }

    /// The first second of the minute that follows the minute of `self`.
    pub fn next_minute(&self) -> (r: Civil)
        requires
            self.wf(),
        ensures
            r == self.following_minute(),
    {
        if self.minute < 59 {
            Civil {
                year: self.year,
                month: self.month,
                day: self.day,
                hour: self.hour,
                minute: self.minute + 1,
                second: 0,
            }
        } else {
            self.next_hour()
        }
    }

    /// The second that follows `self`.
    pub fn next_second(&self) -> (r: Civil)
        requires
            self.wf(),
        ensures
            r == self.following_second(),
    {
        if self.second < 59 {
            Civil {
                year: self.year,
                month: self.month,
                day: self.day,
                hour: self.hour,
                minute: self.minute,
                second: self.second + 1,
            }
        } else {
            self.next_minute()
        }
    }

    /// Whether the fields name a date and time in the supported range.
    pub fn is_valid(&self) -> (r: bool)
        ensures
            r == self.wf(),
    {
        MIN_YEAR <= self.year && self.year <= MAX_YEAR && 1 <= self.month && self.month <= 12
            && 1 <= self.day && self.day <= month_length(self.year, self.month) && self.hour < 24
            && self.minute < 60 && self.second < 60
    }

    /// Number of the day, with 1970-01-01 as day 0.
    pub fn day_index(&self) -> (r: i64)
        requires
            self.valid(),
            MIN_YEAR <= self.year <= MAX_YEAR + 1,
        ensures
            r == self.day_number(),
            MIN_DAY <= r <= MAX_DAY + 366,
            self.wf() ==> r <= MAX_DAY,
    {
        proof {
            lemma_day_in_year(*self);
            lemma_years_ascend(MIN_YEAR as int, self.year as int);
            lemma_year_step(MAX_YEAR + 1);
            lemma_range_constants();
            if self.year <= MAX_YEAR {
                lemma_years_ascend(self.year + 1, MAX_YEAR + 1);
            }
        }
        let before_year: i64 = year_offset(self.year);
        let before_month: i64 = month_offset(self.year, self.month) as i64;
        before_year + before_month + (self.day as i64) - 1
    }

    /// Seconds from the epoch to this date and time.
    pub fn to_secs(&self) -> (r: i64)
        requires
            self.valid(),
            MIN_YEAR <= self.year <= MAX_YEAR + 1,
        ensures
            r == self.instant(),
            self.wf() ==> MIN_SECS <= r <= MAX_SECS,
    {
        proof {
            lemma_range_constants();
        }
        let days: i64 = self.day_index();
        let second_of_day: i64 = (self.hour as i64) * 3600 + (self.minute as i64) * 60 + (
        self.second as i64);
        days * 86_400 + second_of_day
    }

    /// Day of the week: 0 is Monday, 6 is Sunday.
    pub fn day_of_week(&self) -> (r: u32)
        requires
            self.wf(),
        ensures
            r == self.weekday(),
            r < 7,
    {
        let days: i64 = self.day_index();
        // The range begins a whole number of weeks before the epoch.
        let shifted: i64 = days + 96_465_292 + 3;
        assert(shifted % 7 == (days + 3) % 7) by {
            assert(shifted == (days + 3) + 7 * 13_780_756);
        }
        (shifted % 7) as u32
    }

    /// The date and time that lie `secs` seconds from the epoch.
    pub fn from_secs(secs: i64) -> (c: Civil)
        requires
            MIN_SECS <= secs <= MAX_SECS,
        ensures
            c.wf(),
            c.instant() == secs,
            c == civil_of(secs as int),
    {
        proof {
            lemma_range_constants();
        }
        let shifted: i64 = secs - MIN_SECS;
        let day_index: i64 = shifted / 86_400;
        let second_of_day: i64 = shifted % 86_400;
        let days: i64 = day_index + MIN_DAY;
        assert(days * 86_400 + second_of_day == secs);
        // 400 years hold 146097 days: the estimate is off by one year at most.
        let mut year: i32 = (MIN_YEAR as i64 + day_index * 400 / 146_097) as i32;
        while year_offset(year) > days
            invariant
                MIN_YEAR <= year <= MAX_YEAR,
                MIN_DAY <= days <= MAX_DAY,
            decreases year - MIN_YEAR,
        {
            proof {
                lemma_range_constants();
                lemma_years_ascend(MIN_YEAR as int, year as int);
            }
            year = year - 1;
        }
        while year_offset(year + 1) <= days
            invariant
                MIN_YEAR <= year <= MAX_YEAR,
                MIN_DAY <= days <= MAX_DAY,
                days_before_year(year as int) <= days,
            decreases MAX_YEAR - year,
        {
            proof {
                lemma_range_constants();
                lemma_years_ascend(year + 1, MAX_YEAR + 1);
            }
            year = year + 1;
        }
        proof {
            lemma_year_step(year as int);
            lemma_days_before_month(year as int);
        }
        let day_of_year: i64 = days - year_offset(year);
        let mut month: u32 = 1;
        while month < 12 && (month_offset(year, month + 1) as i64) <= day_of_year
            invariant
                1 <= month <= 12,
                days_before_month(year as int, month as int) <= day_of_year,
                0 <= day_of_year < days_in_year(year as int),
            decreases 12 - month,
        {
            month = month + 1;
        }
        let day: i64 = day_of_year - (month_offset(year, month) as i64) + 1;
        assert(1 <= day <= days_in_month(year as int, month as int)) by {
            lemma_days_before_month(year as int);
            reveal_with_fuel(days_before_month, 2);
        }
        let c = Civil {
            year,
            month,
            day: day as u32,
            hour: (second_of_day / 3600) as u32,
            minute: (second_of_day % 3600 / 60) as u32,
            second: (second_of_day % 60) as u32,
        };
        proof {
            lemma_civil_of(secs as int);
            lemma_instant_determines(civil_of(secs as int), c);
        }
        c
    }
}

/// The date and time that lie `secs` seconds from the epoch.
pub open spec fn civil_of(secs: int) -> Civil {
    choose|c: Civil| c.valid() && c.instant() == secs
}

/// A valid day lies within its year.
pub proof fn lemma_day_in_year(c: Civil)
    requires
        c.valid(),
    ensures
        days_before_year(c.year as int) <= c.day_number() < days_before_year(c.year + 1),
        0 <= c.second_of_day() < 86_400,
{
    let y = c.year as int;
    let m = c.month as int;
    reveal_with_fuel(days_before_month, 2);
    assert(days_before_month(y, m + 1) == days_before_month(y, m) + days_in_month(y, m));
    lemma_months_ascend(y, 1, m);
    lemma_months_ascend(y, m + 1, 13);
    lemma_days_before_month(y);
    lemma_year_step(y);
}

/// Time runs as the fields count: an earlier date and time lies fewer
/// seconds from the epoch than a later one.
pub proof fn lemma_precedes_instant(a: Civil, b: Civil)
    requires
        a.valid(),
        b.valid(),
        a.precedes(b),
    ensures
        a.instant() < b.instant(),
{
    lemma_day_in_year(a);
    lemma_day_in_year(b);
    if a.year < b.year {
        lemma_years_ascend(a.year + 1, b.year as int);
    } else if a.month < b.month {
        let y = a.year as int;
        let m = a.month as int;
        reveal_with_fuel(days_before_month, 2);
        assert(days_before_month(y, m + 1) == days_before_month(y, m) + days_in_month(y, m));
        lemma_months_ascend(y, m + 1, b.month as int);
    }
}

/// No two valid dates and times lie at the same instant.
pub proof fn lemma_instant_determines(a: Civil, b: Civil)
    requires
        a.valid(),
        b.valid(),
        a.instant() == b.instant(),
    ensures
        a == b,
{
    if a.precedes(b) {
        lemma_precedes_instant(a, b);
    } else if b.precedes(a) {
        lemma_precedes_instant(b, a);
    }
}

/// A valid date and time at an instant of the supported range lies in a year
/// of the supported range.
pub proof fn lemma_year_in_range(c: Civil)
    requires
        c.valid(),
        MIN_SECS <= c.instant() <= MAX_SECS,
    ensures
        c.wf(),
{
    lemma_day_in_year(c);
    lemma_range_constants();
    if c.year > MAX_YEAR {
        lemma_years_ascend(MAX_YEAR + 1, c.year as int);
    }
    if c.year < MIN_YEAR {
        lemma_years_ascend(c.year + 1, MIN_YEAR as int);
    }
}

/// Every day of the supported range has a date: the midnight that begins it.
pub proof fn lemma_day_has_date(day: int) -> (c: Civil)
    requires
        MIN_DAY <= day <= MAX_DAY,
    ensures
        c.wf(),
        c.day_number() == day,
        c.second_of_day() == 0,
    decreases day - MIN_DAY,
{
    lemma_range_constants();
    if day == MIN_DAY {
        let first = Civil { year: MIN_YEAR, month: 1, day: 1, hour: 0, minute: 0, second: 0 };
        lemma_days_before_month(MIN_YEAR as int);
        first
    } else {
        let before = lemma_day_has_date(day - 1);
        let y = before.year as int;
        let m = before.month as int;
        lemma_day_in_year(before);
        lemma_days_before_month(y);
        lemma_days_before_month(y + 1);
        lemma_year_step(y);
        reveal_with_fuel(days_before_month, 2);
        assert(days_before_month(y, m + 1) == days_before_month(y, m) + days_in_month(y, m));
        if before.day < days_in_month(y, m) {
            Civil { day: (before.day + 1) as u32, ..before }
        } else if before.month < 12 {
            Civil { month: (before.month + 1) as u32, day: 1, ..before }
        } else {
            assert(y < MAX_YEAR);
            Civil { year: (before.year + 1) as i32, month: 1, day: 1, ..before }
        }
    }
}

/// Every instant of the supported range has exactly one date and time,
/// which [`civil_of`] yields.
pub proof fn lemma_civil_of(secs: int)
    requires
        MIN_SECS <= secs <= MAX_SECS,
    ensures
        civil_of(secs).wf(),
        civil_of(secs).instant() == secs,
{
    lemma_range_constants();
    let day = secs / 86_400;
    let rest = secs % 86_400;
    let midnight = lemma_day_has_date(day);
    let c = Civil {
        hour: (rest / 3600) as u32,
        minute: (rest % 3600 / 60) as u32,
        second: (rest % 60) as u32,
        ..midnight
    };
    assert(c.valid() && c.instant() == secs);
    lemma_year_in_range(civil_of(secs));
}

/// [`civil_of`] undoes [`Civil::instant`].
pub proof fn lemma_civil_of_instant(c: Civil)
    requires
        c.valid(),
    ensures
        civil_of(c.instant()) == c,
{
    lemma_instant_determines(civil_of(c.instant()), c);
}

/// The month that follows begins later, and every second from `c` up to it
/// lies in the month of `c`.
pub proof fn lemma_following_month(c: Civil, x: Civil)
    requires
        c.wf(),
        x.valid(),
    ensures
        c.following_month().valid(),
        c.instant() < c.following_month().instant(),
        c.following_month().wf() || c.following_month().instant() == MAX_SECS + 1,
        c.instant() <= x.instant() < c.following_month().instant() ==> x.same_month(c),
{
    let n = c.following_month();
    lemma_precedes_instant(c, n);
    if x.precedes(c) {
        lemma_precedes_instant(x, c);
    }
    if n.precedes(x) {
        lemma_precedes_instant(n, x);
    }
    if !n.wf() {
        lemma_range_constants();
        lemma_days_before_month(MAX_YEAR + 1);
    }
}

/// The day that follows begins later, and every second from `c` up to it
/// lies on the day of `c`.
pub proof fn lemma_following_day(c: Civil, x: Civil)
    requires
        c.wf(),
        x.valid(),
    ensures
        c.following_day().valid(),
        c.instant() < c.following_day().instant(),
        c.following_day().wf() || c.following_day().instant() == MAX_SECS + 1,
        c.instant() <= x.instant() < c.following_day().instant() ==> x.same_day(c),
{
    let n = c.following_day();
    lemma_following_month(c, x);
    lemma_precedes_instant(c, n);
    if x.precedes(c) {
        lemma_precedes_instant(x, c);
    }
    if n.precedes(x) {
        lemma_precedes_instant(n, x);
    }
}

/// The hour that follows begins later, and every second from `c` up to it
/// lies in the hour of `c`.
pub proof fn lemma_following_hour(c: Civil, x: Civil)
    requires
        c.wf(),
        x.valid(),
    ensures
        c.following_hour().valid(),
        c.instant() < c.following_hour().instant(),
        c.following_hour().wf() || c.following_hour().instant() == MAX_SECS + 1,
        c.instant() <= x.instant() < c.following_hour().instant() ==> x.same_hour(c),
{
    let n = c.following_hour();
    lemma_following_day(c, x);
    lemma_precedes_instant(c, n);
    if x.precedes(c) {
        lemma_precedes_instant(x, c);
    }
    if n.precedes(x) {
        lemma_precedes_instant(n, x);
    }
}

/// The minute that follows begins later, and every second from `c` up to it
/// lies in the minute of `c`.
pub proof fn lemma_following_minute(c: Civil, x: Civil)
    requires
        c.wf(),
        x.valid(),
    ensures
        c.following_minute().valid(),
        c.instant() < c.following_minute().instant(),
        c.following_minute().wf() || c.following_minute().instant() == MAX_SECS + 1,
        c.instant() <= x.instant() < c.following_minute().instant() ==> x.same_minute(c),
{
    let n = c.following_minute();
    lemma_following_hour(c, x);
    lemma_precedes_instant(c, n);
    if x.precedes(c) {
        lemma_precedes_instant(x, c);
    }
    if n.precedes(x) {
        lemma_precedes_instant(n, x);
    }
}

/// The second that follows lies one second later.
pub proof fn lemma_following_second(c: Civil)
    requires
        c.wf(),
    ensures
        c.following_second().valid(),
        c.following_second().instant() == c.instant() + 1,
        c.following_second().wf() || c.following_second().instant() == MAX_SECS + 1,
{
    let y = c.year as int;
    let m = c.month as int;
    lemma_following_minute(c, c);
    lemma_year_step(y);
    lemma_days_before_month(y);
    lemma_days_before_month(y + 1);
    reveal_with_fuel(days_before_month, 2);
    assert(days_before_month(y, m + 1) == days_before_month(y, m) + days_in_month(y, m));
}

/// A date and time of the supported range lies at an instant of that range.
pub proof fn lemma_instant_in_range(c: Civil)
    requires
        c.wf(),
    ensures
        MIN_SECS <= c.instant() <= MAX_SECS,
{
    lemma_day_in_year(c);
    lemma_years_ascend(MIN_YEAR as int, c.year as int);
    lemma_years_ascend(c.year + 1, MAX_YEAR + 1);
    lemma_range_constants();
}

} // verus!
