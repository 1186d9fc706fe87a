//! The Gregorian calendar from 1970 on, in UTC: days, dates and Unix seconds.

use vstd::prelude::*;

verus! {

/// Seconds in one day.
pub const SECONDS_PER_DAY: i64 = 86_400;

/// The last second of the last year that fits in an `i32`.
pub const LAST_TIMESTAMP: i64 = 67_767_976_233_532_799;

/// The last day of the last year that fits in an `i32`, counted from 1970-01-01.
pub const LAST_DAY: i64 = 784_351_576_776;

/// A calendar date: `month` counts from one, and so does `day`.
#[derive(Debug, Clone, Copy, PartialEq, Eq, Structural)]
pub struct LocalParts {
    pub year: i32,
    pub month: u32,
    pub day: u32,
}

/// Whether `year` has a 29th of February.
pub open spec fn leap(year: int) -> bool {
    (year % 4 == 0 && year % 100 != 0) || year % 400 == 0
}

/// Days in `year`.
pub open spec fn year_length(year: int) -> int {
    if leap(year) {
        366
    } else {
        365
    }
}

/// Days from 1970-01-01 to the first day of `year`; none for the years up to 1970.
pub open spec fn days_before_year(year: int) -> int
    decreases year - 1970,
{
    if year <= 1970 {
        0
    } else {
        days_before_year(year - 1) + year_length(year - 1)
    }
}

/// Days in the given month, counted from one.
pub open spec fn month_length(year: int, month: int) -> int {
    if month == 2 {
        if leap(year) {
            29
        } else {
            28
        }
    } else if month == 4 || month == 6 || month == 9 || month == 11 {
        30
    } else {
        31
    }
}

/// Days from the first day of `year` to the first day of `month`.
pub open spec fn days_before_month(year: int, month: int) -> int
    decreases month,
{
    if month <= 1 {
        0
    } else {
        days_before_month(year, month - 1) + month_length(year, month - 1)
    }
}

/// The number of a day, counted from 1970-01-01. A `day` past the end of its month runs
/// on into the next one.
pub open spec fn day_number(year: int, month: int, day: int) -> int {
    days_before_year(year) + days_before_month(year, month) + day - 1
}

/// Unix seconds of a date and a time of day.
pub open spec fn unix_seconds(
    year: int,
    month: int,
    day: int,
    hour: int,
    minute: int,
    second: int,
) -> int {
    day_number(year, month, day) * 86_400 + hour * 3600 + minute * 60 + second
}

/// Whether `parts` is a day of the calendar, in 1970 or later.
pub open spec fn is_date(parts: LocalParts) -> bool {
    &&& parts.year >= 1970
    &&& 1 <= parts.month <= 12
    &&& 1 <= parts.day <= month_length(parts.year as int, parts.month as int)
}

/// The number of the day that `parts` names.
pub open spec fn number_of(parts: LocalParts) -> int {
    day_number(parts.year as int, parts.month as int, parts.day as int)
}

/// Whole days in `now` seconds, rounded towards zero.
pub open spec fn whole_days(now: int) -> int {
    if now >= 0 {
        now / 86_400
    } else {
        -((-now) / 86_400)
    }
}

/// The date with the given day number. A day before 1970-01-01 has no date: it keeps
/// January 1970 and an out-of-range day field, its number plus one in 32 bits.
pub open spec fn date_of(day: int) -> LocalParts {
    if day < 0 {
        LocalParts { year: 1970, month: 1, day: #[verifier::truncate] ((day + 1) as u32) }
    } else {
        choose|parts: LocalParts| is_date(parts) && #[trigger] number_of(parts) == day
    }
}

proof fn lemma_year_length_is_month_sum(year: int)
    ensures
        days_before_month(year, 13) == year_length(year),
{
    reveal_with_fuel(days_before_month, 14);
}

proof fn lemma_months_increase(year: int, a: int, b: int)
    requires
        1 <= a <= b <= 13,
    ensures
        a < b ==> days_before_month(year, a) + month_length(year, a) <= days_before_month(year, b),
        0 <= days_before_month(year, a) <= days_before_month(year, b) <= year_length(year),
    decreases b - a, 13 - a,
{
    lemma_year_length_is_month_sum(year);
    reveal_with_fuel(days_before_month, 14);
}

proof fn lemma_years_increase(a: int, b: int)
    requires
        1970 <= a <= b,
    ensures
        a < b ==> days_before_year(a) + year_length(a) <= days_before_year(b),
        0 <= days_before_year(a) <= days_before_year(b),
        days_before_year(b) >= b - 1970,
    decreases b,
{
    if a < b {
        lemma_years_increase(a, b - 1);
    } else if a > 1970 {
        lemma_years_increase(a - 1, b - 1);
    }
}

/// The day count in closed form.
proof fn lemma_days_before_year_formula(year: int)
    requires
        year >= 1970,
    ensures
        days_before_year(year) == 365 * (year - 1970) + (year - 1) / 4 - (year - 1) / 100 + (year
            - 1) / 400 - 477,
    decreases year,
{
    if year > 1970 {
        lemma_days_before_year_formula(year - 1);
    }
}

/// `LAST_DAY` is the day before the first year that does not fit in an `i32`.
proof fn lemma_last_day()
    ensures
        days_before_year(i32::MAX + 1) == LAST_DAY + 1,
        LAST_TIMESTAMP + 1 == (LAST_DAY + 1) * 86_400,
{
    lemma_days_before_year_formula(i32::MAX + 1);
}

proof fn lemma_date_bounds(parts: LocalParts)
    requires
        is_date(parts),
    ensures
        days_before_year(parts.year as int) <= number_of(parts) < days_before_year(parts.year + 1),
        0 <= number_of(parts) <= LAST_DAY,
{
    let year = parts.year as int;
    let month = parts.month as int;
    lemma_months_increase(year, month, 13);
    lemma_months_increase(year, 1, month);
    lemma_years_increase(1970, year);
    lemma_years_increase(year + 1, i32::MAX + 1);
    lemma_last_day();
}

/// A day has one date at most: two dates with the same day number are the same date.
pub proof fn law_date_is_unique(a: LocalParts, b: LocalParts)
    requires
        is_date(a),
        is_date(b),
        number_of(a) == number_of(b),
    ensures
        a == b,
{
    lemma_date_bounds(a);
    lemma_date_bounds(b);
    if a.year < b.year {
        lemma_years_increase(a.year + 1, b.year as int);
    } else if b.year < a.year {
        lemma_years_increase(b.year + 1, a.year as int);
    } else if a.month < b.month {
        lemma_months_increase(a.year as int, a.month as int, b.month as int);
    } else if b.month < a.month {
        lemma_months_increase(a.year as int, b.month as int, a.month as int);
    }
}

proof fn lemma_date_of(parts: LocalParts)
    requires
        is_date(parts),
    ensures
        date_of(number_of(parts)) == parts,
{
    lemma_date_bounds(parts);
    let found = date_of(number_of(parts));
    assert(is_date(found) && number_of(found) == number_of(parts));
    law_date_is_unique(found, parts);
}

/// Whether `year` is a leap year.
pub fn is_leap(year: i32) -> (r: bool)
    ensures
        r == leap(year as int),
{
    (year % 4 == 0 && year % 100 != 0) || (year % 400 == 0)
}

/// Whether `year` is a leap year.
pub fn is_leap_year(year: i32) -> (r: bool)
    ensures
        r == leap(year as int),
{
    is_leap(year)
}

fn days_in_month(year: i32, month: u32) -> (r: i64)
    requires
        1 <= month <= 12,
    ensures
        r == month_length(year as int, month as int),
{
    if month == 2 {
        if is_leap(year) {
            29
        } else {
            28
        }
    } else if month == 4 || month == 6 || month == 9 || month == 11 {
        30
    } else {
        31
    }
}

/// The year of a Unix timestamp; 1970 for every timestamp before it.
pub fn chrono_offset_year(timestamp: i64) -> (year: i32)
    requires
        timestamp <= LAST_TIMESTAMP,
    ensures
        year >= 1970,
        timestamp < 0 ==> year == 1970,
        timestamp >= 0 ==> days_before_year(year as int) <= timestamp as int / 86_400
            < days_before_year(year + 1),
{
    let mut days: i64 = timestamp / SECONDS_PER_DAY;
    let ghost start = days as int;
    let mut year: i32 = 1970;
    proof {
        lemma_last_day();
    }
    loop
        invariant
            start <= LAST_DAY,
            days_before_year(i32::MAX + 1) == LAST_DAY + 1,
            year >= 1970,
            days == start - days_before_year(year as int),
            start >= 0 ==> days >= 0,
            timestamp < 0 ==> year == 1970 && start <= 0,
            timestamp >= 0 ==> start == timestamp as int / 86_400,
        decreases days,
    {
        let days_in_year: i64 = if is_leap_year(year) {
            366
        } else {
            365
        };
        if days < days_in_year {
            return year;
        }
        days = days - days_in_year;
        year = year + 1;
    }
}

/// The date of a Unix timestamp.
pub fn chrono_now_parts(now: i64) -> (parts: LocalParts)
    requires
        now <= LAST_TIMESTAMP,
    ensures
        parts == date_of(whole_days(now as int)),
        now >= 0 ==> is_date(parts) && number_of(parts) == now as int / 86_400,
{
    let days: i64 = now / SECONDS_PER_DAY;
    let mut year: i32 = 1970;
    let mut remaining: i64 = days;
    proof {
        lemma_last_day();
    }
    loop
        invariant_except_break
            remaining == days - days_before_year(year as int),
            days < 0 ==> year == 1970,
            days >= 0 ==> remaining >= 0,
        invariant
            days <= LAST_DAY,
            days_before_year(i32::MAX + 1) == LAST_DAY + 1,
            year >= 1970,
        ensures
            remaining == days - days_before_year(year as int),
            remaining < year_length(year as int),
            days < 0 ==> year == 1970,
            days >= 0 ==> remaining >= 0,
        decreases remaining,
    {
        let days_in_year: i64 = if is_leap(year) {
            366
        } else {
            365
        };
        if remaining < days_in_year {
            break;
        }
        remaining = remaining - days_in_year;
        year = year + 1;
    }
    proof {
        lemma_year_length_is_month_sum(year as int);
    }
    let mut month: u32 = 1;
    while month <= 12
        invariant
            days == whole_days(now as int),
            now >= 0 ==> days >= 0,
            year >= 1970,
            1 <= month <= 13,
            days < 0 ==> year == 1970 && month == 1,
            days >= 0 ==> remaining >= 0,
            remaining == days - days_before_year(year as int) - days_before_month(
                year as int,
                month as int,
            ),
            remaining < days_before_month(year as int, 13) - days_before_month(
                year as int,
                month as int,
            ),
        decreases 13 - month,
    {
        let length: i64 = days_in_month(year, month);
        if remaining < length {
            let day: u32 = #[verifier::truncate] ((remaining + 1) as u32);
            let parts = LocalParts { year, month, day };
            proof {
                if days >= 0 {
                    lemma_date_of(parts);
                }
            }
            return parts;
        }
        remaining = remaining - length;
        month = month + 1;
    }
    LocalParts { year, month: 12, day: 31 }
}

/// The date of a Unix timestamp.
pub fn unix_to_parts(unix: i64) -> (parts: LocalParts)
    requires
        unix <= LAST_TIMESTAMP,
    ensures
        parts == date_of(whole_days(unix as int)),
        unix >= 0 ==> is_date(parts) && number_of(parts) == unix as int / 86_400,
{
    chrono_now_parts(unix)
}

/// What [`to_unix`] returns: nothing for a month or a day that no date mentions, and otherwise
/// the seconds. Years before 1970 count as 1970, and the time of day is not checked.
pub open spec fn unix_of(
    year: int,
    month: int,
    day: int,
    hour: int,
    minute: int,
    second: int,
) -> Option<int> {
    if 1 <= month <= 12 && 1 <= day <= 31 {
        Some(unix_seconds(year, month, day, hour, minute, second))
    } else {
        None
    }
}

/// Unix seconds of a date and a time of day, `None` for a month outside 1 to 12 or a day
/// outside 1 to 31.
pub fn to_unix(year: i32, month: i32, day: i32, hour: i32, minute: i32, second: i32) -> (r: Option<
    i64,
>)
    ensures
        match r {
            Some(unix) => unix_of(
                year as int,
                month as int,
                day as int,
                hour as int,
                minute as int,
                second as int,
            ) == Some(unix as int),
            None => unix_of(
                year as int,
                month as int,
                day as int,
                hour as int,
                minute as int,
                second as int,
            ) is None,
        },
{
    if month < 1 || month > 12 || day < 1 || day > 31 {
        return None;
    }
    let mut days: i64 = 0;
    let mut y: i32 = 1970;
    while y < year
        invariant
            1970 <= y,
            y <= year || y == 1970,
            days == days_before_year(y as int),
            0 <= days <= 366 * (y - 1970),
        decreases year - y,
    {
        let length: i64 = if is_leap(y) {
            366
        } else {
            365
        };
        days = days + length;
        y = y + 1;
    }
    let mut index: i32 = 1;
    while index < month
        invariant
            1 <= index <= month <= 12,
            days == days_before_year(year as int) + days_before_month(year as int, index as int),
            0 <= days <= 366 * 0x8000_0000 + 31 * (index - 1),
        decreases month - index,
    {
        days = days + days_in_month(year, index as u32);
        index = index + 1;
    }
    days = days + (day - 1) as i64;
    Some(days * SECONDS_PER_DAY + hour as i64 * 3600 + minute as i64 * 60 + second as i64)
}

/// A midnight that [`to_unix`] gives lies within the calendar.
pub proof fn law_midnight_is_representable(year: int, month: int, day: int)
    requires
        year <= i32::MAX,
        unix_of(year, month, day, 0, 0, 0) is Some,
    ensures
        0 <= unix_of(year, month, day, 0, 0, 0).unwrap() <= LAST_TIMESTAMP,
{
    lemma_last_day();
    lemma_year_length_is_month_sum(year);
    reveal_with_fuel(days_before_month, 14);
    if year >= 1970 {
        lemma_years_increase(1970, year);
        lemma_years_increase(year + 1, i32::MAX + 1);
    } else {
        lemma_years_increase(1971, i32::MAX + 1);
    }
}

/// Every day from 1970-01-01 to the last representable one has a date, and the date has that
/// day number.
pub proof fn law_every_day_has_a_date(day: int)
    requires
        0 <= day <= LAST_DAY,
    ensures
        is_date(date_of(day)),
        number_of(date_of(day)) == day,
{
    lemma_last_day();
    let year = find_year(day, i32::MAX as int);
    lemma_year_length_is_month_sum(year);
    let month = find_month(year, day - days_before_year(year), 12);
    let parts = LocalParts {
        year: year as i32,
        month: month as u32,
        day: (day - days_before_year(year) - days_before_month(year, month) + 1) as u32,
    };
    assert(is_date(parts) && number_of(parts) == day);
}

proof fn find_year(day: int, last: int) -> (year: int)
    requires
        last >= 1970,
        0 <= day < days_before_year(last + 1),
    ensures
        1970 <= year <= last,
        days_before_year(year) <= day < days_before_year(year + 1),
    decreases last,
{
    if days_before_year(last) <= day {
        last
    } else {
        find_year(day, last - 1)
    }
}

proof fn find_month(year: int, day: int, last: int) -> (month: int)
    requires
        1 <= last <= 12,
        0 <= day < days_before_month(year, last + 1),
    ensures
        1 <= month <= last,
        days_before_month(year, month) <= day < days_before_month(year, month + 1),
    decreases last,
{
    if days_before_month(year, last) <= day {
        last
    } else {
        find_month(year, day, last - 1)
    }
}

/// Reading the date back out of the seconds of a date and a time of day gives the date.
pub proof fn law_date_of_unix_seconds(parts: LocalParts, hour: int, minute: int, second: int)
    requires
        is_date(parts),
        0 <= hour < 24,
        0 <= minute < 60,
        0 <= second < 60,
    ensures
        ({
            let unix = unix_seconds(
                parts.year as int,
                parts.month as int,
                parts.day as int,
                hour,
                minute,
                second,
            );
            &&& 0 <= unix <= LAST_TIMESTAMP
            &&& date_of(whole_days(unix)) == parts
        }),
{
    lemma_date_bounds(parts);
    lemma_date_of(parts);
    lemma_last_day();
}

/// The seconds of the midnight that starts a timestamp's date are the timestamp less its
/// time of day.
pub proof fn law_unix_seconds_of_date(now: int)
    requires
        0 <= now <= LAST_TIMESTAMP,
    ensures
        ({
            let parts = date_of(whole_days(now));
            unix_of(parts.year as int, parts.month as int, parts.day as int, 0, 0, 0) == Some(
                now - now % 86_400,
            )
        }),
{
    lemma_last_day();
    law_every_day_has_a_date(whole_days(now));
    let parts = date_of(whole_days(now));
    lemma_months_increase(parts.year as int, parts.month as int, 13);
}

/// The year of a timestamp is the year of its date, and the only one whose days hold it.
pub proof fn law_year_of_timestamp(timestamp: int, year: int)
    requires
        0 <= timestamp <= LAST_TIMESTAMP,
        year >= 1970,
        days_before_year(year) <= timestamp / 86_400 < days_before_year(year + 1),
    ensures
        date_of(whole_days(timestamp)).year == year,
{
    lemma_last_day();
    law_every_day_has_a_date(whole_days(timestamp));
    let parts = date_of(whole_days(timestamp));
    lemma_date_bounds(parts);
    if parts.year < year {
        lemma_years_increase(parts.year + 1, year);
    } else if year < parts.year {
        lemma_years_increase(year + 1, parts.year as int);
    }
}

/// Later dates have larger day numbers.
pub proof fn law_day_numbers_follow_dates(a: LocalParts, b: LocalParts)
    requires
        is_date(a),
        is_date(b),
    ensures
        number_of(a) < number_of(b) <==> (a.year < b.year || a.year == b.year && (a.month < b.month
            || a.month == b.month && a.day < b.day)),
{
    lemma_date_bounds(a);
    lemma_date_bounds(b);
    if a.year < b.year {
        lemma_years_increase(a.year + 1, b.year as int);
    } else if b.year < a.year {
        lemma_years_increase(b.year + 1, a.year as int);
    } else if a.month < b.month {
        lemma_months_increase(a.year as int, a.month as int, b.month as int);
    } else if b.month < a.month {
        lemma_months_increase(a.year as int, b.month as int, a.month as int);
    }
}

/// Every fourth year is a leap year, but of the full centuries only every fourth.
pub proof fn law_leap_years(year: int)
    ensures
        year % 4 != 0 ==> !leap(year),
        year % 4 == 0 && year % 100 != 0 ==> leap(year),
        year % 100 == 0 ==> (leap(year) <==> (year / 100) % 4 == 0),
        leap(year + 400) == leap(year),
{
}

/// The months start where the Gregorian calendar has them, counted in days from 1 January, and
/// from March on a day later in a leap year.
pub proof fn law_months_start(year: int, month: int)
    requires
        1 <= month <= 12,
    ensures
        days_before_month(year, month) == seq![
            0int,
            31,
            59,
            90,
            120,
            151,
            181,
            212,
            243,
            273,
            304,
            334,
        ][month - 1] + if month > 2 && leap(year) {
            1int
        } else {
            0int
        },
        month_length(year, month) == seq![31int, 28, 31, 30, 31, 30, 31, 31, 30, 31, 30, 31][month
            - 1] + if month == 2 && leap(year) {
            1int
        } else {
            0int
        },
{
    reveal_with_fuel(days_before_month, 14);
}

/// The first day of a year: 365 days for every year since 1970, and one for every leap year.
pub proof fn law_years_start(year: int)
    ensures
        year <= 1970 ==> days_before_year(year) == 0,
        year >= 1970 ==> days_before_year(year) == 365 * (year - 1970) + (year - 1) / 4 - (year - 1)
            / 100 + (year - 1) / 400 - 477,
{
    if year >= 1970 {
        lemma_days_before_year_formula(year);
    }
}

/// Unix seconds, in numbers: the days up to the year, the month and the day, and the time of day.
/// A month or a day that no date mentions gives none.
pub proof fn law_unix_seconds_in_numbers(
    year: int,
    month: int,
    day: int,
    hour: int,
    minute: int,
    second: int,
)
    ensures
        unix_of(year, month, day, hour, minute, second) is Some <==> 1 <= month <= 12 && 1 <= day
            <= 31,
        unix_of(year, month, day, hour, minute, second) matches Some(unix) ==> unix
            == unix_seconds(year, month, day, hour, minute, second),
        year >= 1970 && 1 <= month <= 12 ==> unix_seconds(year, month, day, hour, minute, second)
            == 86_400 * (365 * (year - 1970) + (year - 1) / 4 - (year - 1) / 100 + (year - 1) / 400
            - 477 + seq![0int, 31, 59, 90, 120, 151, 181, 212, 243, 273, 304, 334][month - 1]
            + if month > 2 && (year % 4 == 0 && year % 100 != 0 || year % 400 == 0) {
            1int
        } else {
            0int
        } + day - 1) + 3600 * hour + 60 * minute + second,
        year < 1970 && 1 <= month <= 12 ==> unix_seconds(year, month, day, hour, minute, second)
            == 86_400 * (seq![0int, 31, 59, 90, 120, 151, 181, 212, 243, 273, 304, 334][month - 1]
            + if month > 2 && (year % 4 == 0 && year % 100 != 0 || year % 400 == 0) {
            1int
        } else {
            0int
        } + day - 1) + 3600 * hour + 60 * minute + second,
{
    law_years_start(year);
    if 1 <= month <= 12 {
        law_months_start(year, month);
    }
}

/// A timestamp lies in the day whose number is counted from 1970-01-01, and one before 1970 as
/// far behind it as its opposite lies ahead.
pub proof fn law_whole_days_of_timestamp(now: int)
    ensures
        now >= 0 ==> 86_400 * whole_days(now) <= now < 86_400 * (whole_days(now) + 1),
        whole_days(-now) == -whole_days(now),
{
}

/// The date of a day, in numbers: its fields lie in the calendar, and counting the days up to
/// the year, the month and the day gives the day's number. Before 1970 it stays in January 1970.
pub proof fn law_date_in_numbers(day: int)
    requires
        day <= LAST_DAY,
    ensures
        ({
            let date = date_of(day);
            let year = date.year as int;
            let month = date.month as int;
            let leap_day = if year % 4 == 0 && year % 100 != 0 || year % 400 == 0 {
                1int
            } else {
                0int
            };
            &&& day < 0 ==> year == 1970 && month == 1
            &&& day >= 0 ==> {
                &&& year >= 1970
                &&& 1 <= month <= 12
                &&& 1 <= date.day <= seq![31int, 28, 31, 30, 31, 30, 31, 31, 30, 31, 30, 31][month
                    - 1] + if month == 2 {
                    leap_day
                } else {
                    0int
                }
                &&& day == 365 * (year - 1970) + (year - 1) / 4 - (year - 1) / 100 + (year - 1)
                    / 400 - 477 + seq![0int, 31, 59, 90, 120, 151, 181, 212, 243, 273, 304, 334][month
                    - 1] + if month > 2 {
                    leap_day
                } else {
                    0int
                } + date.day - 1
            }
        }),
{
    if day >= 0 {
        law_every_day_has_a_date(day);
        let date = date_of(day);
        law_years_start(date.year as int);
        law_months_start(date.year as int, date.month as int);
    }
}

/// The last timestamp is the last second of the last year that fits in an `i32`.
pub proof fn law_last_timestamp_ends_a_year()
    ensures
        LAST_TIMESTAMP + 1 == unix_seconds(i32::MAX + 1, 1, 1, 0, 0, 0),
        LAST_DAY == LAST_TIMESTAMP as int / 86_400,
{
    lemma_last_day();
}

} // verus!
