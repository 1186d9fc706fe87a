//! The machine's clock, and the year it shows.

use std::time::{Duration, SystemTime, SystemTimeError};
use vstd::prelude::*;

use crate::calendar::{chrono_offset_year, days_before_year, law_years_start, LAST_TIMESTAMP};

verus! {

/// `std::time::SystemTime`: a reading of the machine's clock.
#[verifier::external_type_specification]
#[verifier::external_body]
pub struct ExSystemTime(SystemTime);

/// `std::time::SystemTimeError`: what comes back where the earlier of two readings is the
/// later one.
#[verifier::external_type_specification]
#[verifier::external_body]
pub struct ExSystemTimeError(SystemTimeError);

/// `SystemTime::now` reads the clock; nothing is claimed of the reading.
pub assume_specification[ SystemTime::now ]() -> SystemTime;

/// `SystemTime::duration_since`: the time between two readings, or an error if it is negative;
/// nothing is claimed of how long it is.
pub assume_specification[ SystemTime::duration_since ](
    reading: &SystemTime,
    earlier: SystemTime,
) -> Result<Duration, SystemTimeError>;

/// `Duration::as_secs`: the whole seconds of a duration; nothing is claimed of their number.
pub assume_specification[ Duration::as_secs ](duration: &Duration) -> u64;

/// `std::time::UNIX_EPOCH`: the reading at the start of 1970; nothing is claimed of it.
#[verifier::external_body]
fn unix_epoch() -> SystemTime {
    std::time::UNIX_EPOCH
}

/// Whether a reading is what comes of `elapsed`, the time since the start of 1970: the whole
/// seconds of it as `Duration::as_secs` gives them, and nothing where it is an error.
pub open spec fn is_reading_of(
    reading: Option<u64>,
    elapsed: Result<Duration, SystemTimeError>,
) -> bool {
    match elapsed {
        Ok(duration) => match reading {
            Some(seconds) => call_ensures(Duration::as_secs, (&duration,), seconds),
            None => false,
        },
        Err(_) => reading is None,
    }
}

/// The reading that comes of the time since the start of 1970, `None` where it is an error.
pub fn seconds_of(elapsed: Result<Duration, SystemTimeError>) -> (reading: Option<u64>)
    ensures
        is_reading_of(reading, elapsed),
{
    match elapsed {
        Ok(duration) => Some(duration.as_secs()),
        Err(_) => None,
    }
}

/// Whether a reading came from the machine's clock: it is what comes of the time between what
/// [`unix_epoch`] gave and what `SystemTime::now` gave, as `SystemTime::duration_since` gave it.
pub closed spec fn is_clock_reading(reading: Option<u64>) -> bool {
    exists|now: SystemTime, epoch: SystemTime, elapsed: Result<Duration, SystemTimeError>|
        {
            &&& call_ensures(SystemTime::now, (), now)
            &&& call_ensures(unix_epoch, (), epoch)
            &&& #[trigger] call_ensures(SystemTime::duration_since, (&now, epoch), elapsed)
            &&& is_reading_of(reading, elapsed)
        }
}

/// Whole seconds since the start of 1970, `None` where the clock stands before it. What the
/// clock shows is not known beforehand.
pub(crate) fn read_clock() -> (reading: Option<u64>)
    ensures
        is_clock_reading(reading),
{
    let now = SystemTime::now();
    let epoch = unix_epoch();
    let elapsed = now.duration_since(epoch);
    seconds_of(elapsed)
}

/// A reading as a 64-bit timestamp; zero where the clock stands before 1970.
pub open spec fn timestamp_of(reading: Option<u64>) -> i64 {
    match reading {
        Some(seconds) => #[verifier::truncate] (seconds as i64),
        None => 0,
    }
}

/// Whether `year` is the year that a reading falls in.
pub open spec fn is_year_of_reading(reading: Option<u64>, year: i32) -> bool {
    let timestamp = timestamp_of(reading);
    if timestamp < 0 {
        year == 1970
    } else {
        year >= 1970 && days_before_year(year as int) <= timestamp as int / 86_400
            < days_before_year(year + 1)
    }
}

/// The year that a reading of the clock falls in, `None` if the year does not fit in an `i32`.
pub fn archive_year_at(reading: Option<u64>) -> (r: Option<i32>)
    ensures
        r is None <==> timestamp_of(reading) > LAST_TIMESTAMP,
        r matches Some(year) ==> is_year_of_reading(reading, year),
{
    let now: i64 = match reading {
        Some(seconds) => #[verifier::truncate] (seconds as i64),
        None => 0,
    };
    if now > LAST_TIMESTAMP {
        None
    } else {
        Some(chrono_offset_year(now))
    }
}

/// The year that the clock shows, `None` if it does not fit in an `i32`.
pub fn current_archive_year() -> (r: Option<i32>)
    ensures
        exists|reading: Option<u64>|
            {
                &&& #[trigger] is_clock_reading(reading)
                &&& r is None <==> timestamp_of(reading) > LAST_TIMESTAMP
                &&& r matches Some(year) ==> is_year_of_reading(reading, year)
            },
{
    archive_year_at(read_clock())
}

/// The year of a reading, in numbers: the reading lies between the first second of the year and
/// the first of the next. A clock before 1970, and one past what a timestamp holds, is in 1970.
pub proof fn law_year_of_reading_in_numbers(reading: Option<u64>, year: i32)
    requires
        is_year_of_reading(reading, year),
    ensures
        reading is None ==> year == 1970,
        reading matches Some(seconds) ==> {
            &&& seconds > i64::MAX ==> year == 1970
            &&& seconds <= i64::MAX ==> {
                &&& year >= 1970
                &&& 86_400 * (365 * (year - 1970) + (year - 1) / 4 - (year - 1) / 100 + (year - 1)
                    / 400 - 477) <= seconds < 86_400 * (365 * (year - 1969) + year as int / 4
                    - year as int / 100 + year as int / 400 - 477)
            }
        },
{
    law_years_start(year as int);
    law_years_start(year + 1);
    match reading {
        Some(seconds) => {
            if seconds > i64::MAX {
                assert((seconds as i64) < 0) by (bit_vector)
                    requires
                        seconds > 0x7fff_ffff_ffff_ffffu64,
                ;
            }
        },
        None => {
            law_years_start(1971);
            if year > 1970 {
                assert(days_before_year(year as int) > 0);
            }
        },
    }
}

/// A reading is its own timestamp as far as a timestamp can hold it, negative past that, and zero
/// where there is none.
pub proof fn law_timestamp_of_reading(seconds: u64)
    ensures
        timestamp_of(None) == 0,
        seconds <= i64::MAX ==> timestamp_of(Some(seconds)) == seconds,
        seconds > i64::MAX ==> timestamp_of(Some(seconds)) < 0,
{
    if seconds > i64::MAX {
        assert((seconds as i64) < 0) by (bit_vector)
            requires
                seconds > 0x7fff_ffff_ffff_ffffu64,
        ;
    }
}

} // verus!
