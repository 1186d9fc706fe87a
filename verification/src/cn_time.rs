//! Times as feed pages write them: a full date, a date without a year, or a time of day.

use vstd::prelude::*;

use crate::calendar::{
    chrono_now_parts, date_of, is_date, law_date_in_numbers, law_every_day_has_a_date,
    law_last_timestamp_ends_a_year, law_midnight_is_representable, law_months_start,
    law_unix_seconds_in_numbers, law_unix_seconds_of_date, number_of, to_unix, unix_of,
    unix_seconds, unix_to_parts, whole_days, LocalParts, LAST_DAY, LAST_TIMESTAMP, SECONDS_PER_DAY,
};
use crate::clock::{is_clock_reading, read_clock, timestamp_of};
use crate::numbers::{
    integer_within, law_digits_are_read_in_order, law_integers_hold_digits_only, parse_integer,
    written_integer,
};
use crate::patterns::{
    find_number_runs, is_decimal_number, law_ascii_decimal_numbers, law_runs_are_found_in_order,
    number_runs,
};
use crate::text::{characters, texts, trim, trimmed};

verus! {

/// The number that a run of digits writes, if it fits in an `i32`.
pub open spec fn number_of_run(run: Seq<char>) -> Option<int> {
    integer_within(run, i32::MIN as int, i32::MAX as int)
}

/// The numbers in the text, in order; nothing if one of them does not fit in an `i32` or is
/// not written in ASCII digits.
pub open spec fn numbers_in(text: Seq<char>) -> Option<Seq<int>> {
    let runs = number_runs(text);
    if forall|i: int| 0 <= i < runs.len() ==> number_of_run(#[trigger] runs[i]) is Some {
        Some(runs.map_values(|run: Seq<char>| number_of_run(run).unwrap()))
    } else {
        None
    }
}

/// A field of a date as a signed 32-bit integer.
pub open spec fn signed(field: u32) -> int {
    (#[verifier::truncate] (field as i32)) as int
}

/// Seconds of a time of day on a date.
pub open spec fn time_on(date: LocalParts, hour: int, minute: int) -> Option<int> {
    unix_of(date.year as int, signed(date.month), signed(date.day), hour, minute, 0)
}

/// The date before `today`.
pub open spec fn day_before(today: LocalParts) -> Option<LocalParts> {
    match time_on(today, 0, 0) {
        Some(midnight) => Some(date_of(whole_days(midnight - 86_400))),
        None => None,
    }
}

/// Reads the numbers as one kind of time: zero is a full date and a time, one is month, day and
/// time in the current year, two is a time of yesterday and three a time of today. Numbers
/// beyond those that a kind needs are left over.
pub open spec fn time_of_kind(numbers: Seq<int>, today: LocalParts, kind: int) -> Option<int> {
    if kind == 3 && numbers.len() >= 2 {
        time_on(today, numbers[0], numbers[1])
    } else if kind == 2 && numbers.len() >= 2 {
        match day_before(today) {
            Some(yesterday) => time_on(yesterday, numbers[0], numbers[1]),
            None => None,
        }
    } else if kind == 1 && numbers.len() >= 4 {
        unix_of(today.year as int, numbers[0], numbers[1], numbers[2], numbers[3], 0)
    } else if kind == 0 && numbers.len() >= 5 {
        unix_of(
            numbers[0],
            numbers[1],
            numbers[2],
            numbers[3],
            numbers[4],
            if numbers.len() >= 6 {
                numbers[5]
            } else {
                0
            },
        )
    } else {
        None
    }
}

/// Reads the text as one kind of time.
pub open spec fn text_of_kind(text: Seq<char>, today: LocalParts, kind: int) -> Option<int> {
    match numbers_in(text) {
        Some(numbers) => time_of_kind(numbers, today, kind),
        None => None,
    }
}

/// The first of the four kinds, in their order, as which the text can be read.
pub open spec fn first_kind(text: Seq<char>, today: LocalParts) -> Option<int> {
    if text_of_kind(text, today, 0) is Some {
        text_of_kind(text, today, 0)
    } else if text_of_kind(text, today, 1) is Some {
        text_of_kind(text, today, 1)
    } else if text_of_kind(text, today, 2) is Some {
        text_of_kind(text, today, 2)
    } else {
        text_of_kind(text, today, 3)
    }
}

/// The time that a text writes, seen at `now`.
pub open spec fn time_at(text: Seq<char>, now: int) -> Option<int> {
    let inner = trimmed(text);
    if inner.len() == 0 {
        None
    } else {
        first_kind(inner, date_of(whole_days(now)))
    }
}

/// The time that a text writes, seen at a reading of the clock; nothing where the clock stands
/// before 1970 or past the last representable year.
pub open spec fn time_at_reading(text: Seq<char>, reading: Option<u64>) -> Option<int> {
    if reading is None || timestamp_of(reading) > LAST_TIMESTAMP {
        None
    } else {
        time_at(text, timestamp_of(reading) as int)
    }
}

/// The numbers in the text, in order, `None` if one of them does not fit in an `i32`.
pub fn read_numbers(input: &str) -> (r: Option<Vec<i32>>)
    ensures
        match r {
            Some(numbers) => numbers_in(input@) == Some(numbers@.map_values(|n: i32| n as int)),
            None => numbers_in(input@) is None,
        },
{
    let runs = find_number_runs(input);
    let ghost model = number_runs(input@);
    let mut numbers: Vec<i32> = Vec::new();
    let mut i: usize = 0;
    while i < runs.len()
        invariant
            texts(runs@) == model,
            model == number_runs(input@),
            i <= runs@.len(),
            numbers@.len() == i,
            forall|k: int|
                0 <= k < i ==> number_of_run(#[trigger] model[k]) == Some(numbers@[k] as int),
        decreases runs@.len() - i,
    {
        assert(model[i as int] == runs@[i as int]@);
        let digits = characters(runs[i].as_str());
        match parse_integer(&digits, i32::MIN as i64, i32::MAX as i64) {
            Some(n) => numbers.push(n as i32),
            None => {
                return None;
            },
        }
        i = i + 1;
    }
    assert(model.map_values(|run: Seq<char>| number_of_run(run).unwrap())
        =~= numbers@.map_values(|n: i32| n as int));
    Some(numbers)
}

/// Reads a text as one kind of time, seen on the date `today`. The layout names the kind for
/// the reader only: the numbers are taken in order, whatever stands between them.
pub fn parse_with_layout(input: &str, _layout: &str, today: LocalParts, kind: u8) -> (r: Option<i64>)
    ensures
        match r {
            Some(unix) => text_of_kind(input@, today, kind as int) == Some(unix as int),
            None => text_of_kind(input@, today, kind as int) is None,
        },
{
    let numbers = match read_numbers(input) {
        Some(numbers) => numbers,
        None => {
            return None;
        },
    };
    let month: i32 = #[verifier::truncate] (today.month as i32);
    let day: i32 = #[verifier::truncate] (today.day as i32);
    if kind == 3 && numbers.len() >= 2 {
        to_unix(today.year, month, day, numbers[0], numbers[1], 0)
    } else if kind == 2 && numbers.len() >= 2 {
        match to_unix(today.year, month, day, 0, 0, 0) {
            None => None,
            Some(midnight) => {
                proof {
                    law_midnight_is_representable(today.year as int, month as int, day as int);
                }
                let parts = unix_to_parts(midnight - SECONDS_PER_DAY);
                to_unix(
                    parts.year,
                    #[verifier::truncate] (parts.month as i32),
                    #[verifier::truncate] (parts.day as i32),
                    numbers[0],
                    numbers[1],
                    0,
                )
            },
        }
    } else if kind == 1 && numbers.len() >= 4 {
        to_unix(today.year, numbers[0], numbers[1], numbers[2], numbers[3], 0)
    } else if kind == 0 && numbers.len() >= 5 {
        let second: i32 = if numbers.len() >= 6 {
            numbers[5]
        } else {
            0
        };
        to_unix(numbers[0], numbers[1], numbers[2], numbers[3], numbers[4], second)
    } else {
        None
    }
}

/// The time that a text writes, seen at the timestamp `now`.
pub fn parse_cn_time_at(time_str: &str, now: i64) -> (r: Option<i64>)
    requires
        now <= LAST_TIMESTAMP,
    ensures
        match r {
            Some(unix) => time_at(time_str@, now as int) == Some(unix as int),
            None => time_at(time_str@, now as int) is None,
        },
{
    let inner = trim(time_str);
    if inner.as_str().is_empty() {
        return None;
    }
    let local = chrono_now_parts(now);
    let layouts: [(&'static str, u8); 7] = [
        ("%Y年%m月%d日 %H:%M:%S", 0),
        ("%Y年%m月%d日 %H:%M", 0),
        ("%Y-%m-%d %H:%M:%S", 0),
        ("%Y-%m-%d %H:%M", 0),
        ("%m月%d日 %H:%M", 1),
        ("昨天 %H:%M", 2),
        ("%H:%M", 3),
    ];
    let mut i: usize = 0;
    while i < 7
        invariant
            i <= 7,
            layouts@.len() == 7,
            layouts@[0].1 == 0,
            layouts@[1].1 == 0,
            layouts@[2].1 == 0,
            layouts@[3].1 == 0,
            layouts@[4].1 == 1,
            layouts@[5].1 == 2,
            layouts@[6].1 == 3,
            inner@ == trimmed(time_str@),
            inner@.len() > 0,
            local == date_of(whole_days(now as int)),
            forall|k: int|
                0 <= k < i ==> text_of_kind(inner@, local, #[trigger] layouts@[k].1 as int) is None,
        decreases 7 - i,
    {
        let (layout, kind) = layouts[i];
        match parse_with_layout(inner.as_str(), layout, local, kind) {
            Some(parsed) => {
                assert(i > 3 ==> text_of_kind(inner@, local, layouts@[0].1 as int) is None);
                assert(i > 4 ==> text_of_kind(inner@, local, layouts@[4].1 as int) is None);
                assert(i > 5 ==> text_of_kind(inner@, local, layouts@[5].1 as int) is None);
                return Some(parsed);
            },
            None => {},
        }
        i = i + 1;
    }
    assert(text_of_kind(inner@, local, layouts@[0].1 as int) is None);
    assert(text_of_kind(inner@, local, layouts@[4].1 as int) is None);
    assert(text_of_kind(inner@, local, layouts@[5].1 as int) is None);
    assert(text_of_kind(inner@, local, layouts@[6].1 as int) is None);
    None
}

/// The time that a text writes, seen at a reading of the clock.
pub fn parse_cn_time_at_reading(time_str: &str, reading: Option<u64>) -> (r: Option<i64>)
    ensures
        match r {
            Some(unix) => time_at_reading(time_str@, reading) == Some(unix as int),
            None => time_at_reading(time_str@, reading) is None,
        },
{
    match reading {
        None => None,
        Some(seconds) => {
            let now: i64 = #[verifier::truncate] (seconds as i64);
            if now > LAST_TIMESTAMP {
                None
            } else {
                parse_cn_time_at(time_str, now)
            }
        },
    }
}

/// The time that a text writes, seen now.
pub fn parse_cn_time(time_str: &str) -> (r: Option<i64>)
    ensures
        trimmed(time_str@).len() == 0 ==> r is None,
        exists|reading: Option<u64>|
            {
                &&& #[trigger] is_clock_reading(reading)
                &&& match r {
                    Some(unix) => time_at_reading(time_str@, reading) == Some(unix as int),
                    None => time_at_reading(time_str@, reading) is None,
                }
            },
{
    parse_cn_time_at_reading(time_str, read_clock())
}

/// A text with fewer than two numbers, or with a number that cannot be read, writes no time.
pub proof fn law_time_needs_two_numbers(text: Seq<char>, now: int)
    requires
        numbers_in(trimmed(text)) is None || numbers_in(trimmed(text)).unwrap().len() < 2,
    ensures
        time_at(text, now) is None,
{
}

/// Five numbers or more that start with a year, a month and a day are that date, at the hour,
/// the minute and, where there is a sixth number, the second that follow.
pub proof fn law_full_date_is_read(text: Seq<char>, now: int, numbers: Seq<int>)
    requires
        numbers_in(trimmed(text)) == Some(numbers),
        numbers.len() >= 5,
        1 <= numbers[1] <= 12,
        1 <= numbers[2] <= 31,
    ensures
        time_at(text, now) == Some(
            unix_seconds(
                numbers[0],
                numbers[1],
                numbers[2],
                numbers[3],
                numbers[4],
                if numbers.len() >= 6 {
                    numbers[5]
                } else {
                    0
                },
            ),
        ),
{
}

/// Four numbers that start with a month and a day are that date of the current year.
pub proof fn law_date_without_year_is_read(text: Seq<char>, now: int, numbers: Seq<int>)
    requires
        numbers_in(trimmed(text)) == Some(numbers),
        numbers.len() == 4,
        1 <= numbers[0] <= 12,
        1 <= numbers[1] <= 31,
    ensures
        time_at(text, now) == Some(
            unix_seconds(
                date_of(whole_days(now)).year as int,
                numbers[0],
                numbers[1],
                numbers[2],
                numbers[3],
                0,
            ),
        ),
{
}

/// Two or three numbers are an hour and a minute of the day before, whatever words stand
/// beside them.
pub proof fn law_time_of_day_is_of_yesterday(text: Seq<char>, now: int, numbers: Seq<int>)
    requires
        numbers_in(trimmed(text)) == Some(numbers),
        2 <= numbers.len() <= 3,
        86_400 <= now <= LAST_TIMESTAMP,
    ensures
        time_at(text, now) == Some(
            (now / 86_400 - 1) * 86_400 + numbers[0] * 3600 + numbers[1] * 60,
        ),
{
    lemma_time_of_yesterday(now, numbers);
}

proof fn lemma_time_of_yesterday(now: int, numbers: Seq<int>)
    requires
        numbers.len() >= 2,
        86_400 <= now <= LAST_TIMESTAMP,
    ensures
        time_of_kind(numbers, date_of(whole_days(now)), 2) == Some(
            (now / 86_400 - 1) * 86_400 + numbers[0] * 3600 + numbers[1] * 60,
        ),
{
    let days = now / 86_400;
    assert(days <= LAST_DAY);
    law_every_day_has_a_date(days);
    law_every_day_has_a_date(days - 1);
    law_unix_seconds_of_date(now);
    let today = date_of(days);
    let yesterday = date_of(days - 1);
    assert(time_on(today, 0, 0) == Some(days * 86_400));
    assert(whole_days(days * 86_400 - 86_400) == days - 1);
}

/// From the second day of 1970 on, a text with two readable numbers always writes a time.
pub proof fn law_two_numbers_write_a_time(text: Seq<char>, now: int, numbers: Seq<int>)
    requires
        numbers_in(trimmed(text)) == Some(numbers),
        numbers.len() >= 2,
        86_400 <= now <= LAST_TIMESTAMP,
    ensures
        time_at(text, now) is Some,
{
    lemma_time_of_yesterday(now, numbers);
}

/// Digits that follow text without numbers are the first number, and the numbers behind them
/// are those of what follows; one that does not fit in an `i32`, or is not written in ASCII
/// digits, spoils all.
pub proof fn law_numbers_are_read_in_order(before: Seq<char>, digits: Seq<char>, after: Seq<char>)
    requires
        forall|i: int| 0 <= i < before.len() ==> !is_decimal_number(#[trigger] before[i]),
        digits.len() > 0,
        forall|i: int| 0 <= i < digits.len() ==> is_decimal_number(#[trigger] digits[i]),
        after.len() > 0 ==> !is_decimal_number(after[0]),
    ensures
        numbers_in(before) == Some(Seq::<int>::empty()),
        numbers_in(before + digits + after) == match (written_integer(digits), numbers_in(after)) {
            (Some(n), Some(numbers)) if n <= i32::MAX => Some(seq![n] + numbers),
            _ => None,
        },
{
    law_runs_are_found_in_order(before, digits, after);
    if written_integer(digits) is Some {
        assert(is_decimal_number(digits[0]));
        law_ascii_decimal_numbers('+');
        law_ascii_decimal_numbers('-');
        assert forall|i: int| 0 <= i < digits.len() implies '0' <= #[trigger] digits[i] <= '9' by {
            if !('0' <= digits[i] <= '9') {
                law_integers_hold_digits_only(digits, i);
            }
        }
        lemma_digits_are_not_negative(digits);
    }
    let runs = number_runs(before + digits + after);
    let others = number_runs(after);
    assert(runs[0] == digits);
    assert(forall|i: int| 0 <= i < others.len() ==> runs[i + 1] == #[trigger] others[i]);
    assert(numbers_in(before).unwrap() =~= Seq::<int>::empty());
    if numbers_in(before + digits + after) is Some {
        assert(number_of_run(runs[0]) is Some);
        assert forall|i: int| 0 <= i < others.len() implies number_of_run(
            #[trigger] others[i],
        ) is Some by {
            assert(runs[i + 1] == others[i]);
        }
        assert(numbers_in(before + digits + after).unwrap() =~= seq![
            written_integer(digits).unwrap(),
        ] + numbers_in(after).unwrap());
    } else {
        let k = choose|k: int| 0 <= k < runs.len() && number_of_run(#[trigger] runs[k]) is None;
        if k > 0 {
            assert(others[k - 1] == runs[k]);
        }
    }
}

proof fn lemma_digits_are_not_negative(digits: Seq<char>)
    requires
        digits.len() > 0,
        forall|i: int| 0 <= i < digits.len() ==> '0' <= #[trigger] digits[i] <= '9',
    ensures
        written_integer(digits) is Some,
        written_integer(digits).unwrap() >= 0,
    decreases digits.len(),
{
    reveal_strlit("0123456789");
    let digit = digits.last() as int - '0' as int;
    let c = "0123456789"@[digit];
    if digits.len() == 1 {
        law_digits_are_read_in_order(digits, digit);
        assert(digits =~= seq![c]);
    } else {
        let rest = digits.drop_last();
        lemma_digits_are_not_negative(rest);
        law_digits_are_read_in_order(rest, digit);
        assert(digits =~= rest.push(c));
    }
}

/// What the numbers of a text write, from the second day of 1970 on: a full date if they start
/// with one, otherwise a date of the current year if they start with a month and a day,
/// otherwise a time of the day before, which takes two numbers. On the first day of 1970, which
/// has no day before, it is a time of that day.
pub proof fn law_numbers_write_a_time(text: Seq<char>, now: int, numbers: Seq<int>)
    requires
        numbers_in(trimmed(text)) == Some(numbers),
        0 <= now <= LAST_TIMESTAMP,
    ensures
        time_at(text, now) == if numbers.len() >= 5 && 1 <= numbers[1] <= 12 && 1 <= numbers[2]
            <= 31 {
            Some(
                unix_seconds(
                    numbers[0],
                    numbers[1],
                    numbers[2],
                    numbers[3],
                    numbers[4],
                    if numbers.len() == 5 {
                        0
                    } else {
                        numbers[5]
                    },
                ),
            )
        } else if numbers.len() >= 4 && 1 <= numbers[0] <= 12 && 1 <= numbers[1] <= 31 {
            Some(
                unix_seconds(
                    date_of(now / 86_400).year as int,
                    numbers[0],
                    numbers[1],
                    numbers[2],
                    numbers[3],
                    0,
                ),
            )
        } else if numbers.len() >= 2 {
            Some(
                now - now % 86_400 - if now >= 86_400 {
                    86_400int
                } else {
                    0int
                } + 3600 * numbers[0] + 60 * numbers[1],
            )
        } else {
            None
        },
{
    let inner = trimmed(text);
    let today = date_of(whole_days(now));
    if inner.len() == 0 {
        assert(number_runs(inner) =~= Seq::empty());
    } else if numbers.len() >= 2 {
        if now >= 86_400 {
            lemma_time_of_yesterday(now, numbers);
        } else {
            law_every_day_has_a_date(0);
            law_date_in_numbers(0);
            law_unix_seconds_of_date(now);
            law_unix_seconds_in_numbers(1970, 1, 1, numbers[0], numbers[1], 0);
            law_unix_seconds_in_numbers(1970, 1, 1, 0, 0, 0);
            assert(today.year == 1970 && today.month == 1 && today.day == 1);
            assert(whole_days(-86_400) == -1);
            assert(time_on(date_of(-1), numbers[0], numbers[1]) is None);
        }
    }
}

/// Each kind by itself, on a date: the two kinds without a date differ by a day, the kind without
/// a year takes the date's, and there are no other kinds.
pub proof fn law_each_kind_of_time(text: Seq<char>, today: LocalParts, numbers: Seq<int>)
    requires
        numbers_in(text) == Some(numbers),
        is_date(today),
    ensures
        text_of_kind(text, today, 3) == if numbers.len() >= 2 {
            Some(86_400 * number_of(today) + 3600 * numbers[0] + 60 * numbers[1])
        } else {
            None
        },
        number_of(today) > 0 ==> text_of_kind(text, today, 2) == if numbers.len() >= 2 {
            Some(86_400 * number_of(today) - 86_400 + 3600 * numbers[0] + 60 * numbers[1])
        } else {
            None
        },
        text_of_kind(text, today, 1) == if numbers.len() >= 4 {
            unix_of(today.year as int, numbers[0], numbers[1], numbers[2], numbers[3], 0)
        } else {
            None
        },
        numbers.len() < 5 ==> text_of_kind(text, today, 0) is None,
        numbers.len() == 5 ==> text_of_kind(text, today, 0) == unix_of(
            numbers[0],
            numbers[1],
            numbers[2],
            numbers[3],
            numbers[4],
            0,
        ),
        numbers.len() > 5 ==> text_of_kind(text, today, 0) == unix_of(
            numbers[0],
            numbers[1],
            numbers[2],
            numbers[3],
            numbers[4],
            numbers[5],
        ),
        forall|kind: int| kind < 0 || kind > 3 ==> #[trigger] text_of_kind(text, today, kind) is None,
{
    let day = number_of(today);
    law_months_start(today.year as int, today.month as int);
    law_midnight_is_representable(today.year as int, today.month as int, today.day as int);
    law_last_timestamp_ends_a_year();
    assert(time_on(today, 0, 0) == Some(86_400 * day));
    if day > 0 {
        assert(whole_days(86_400 * day - 86_400) == day - 1);
        law_every_day_has_a_date(day - 1);
        let yesterday = date_of(day - 1);
        law_months_start(yesterday.year as int, yesterday.month as int);
    }
}

/// A text seen at a reading of the clock is one seen at that moment; without a usable reading
/// there is no time, and a text whose numbers cannot be read writes none.
pub proof fn law_time_at_reading(text: Seq<char>, seconds: u64)
    ensures
        time_at_reading(text, None) is None,
        seconds <= LAST_TIMESTAMP ==> time_at_reading(text, Some(seconds)) == time_at(
            text,
            seconds as int,
        ),
        LAST_TIMESTAMP < seconds <= i64::MAX ==> time_at_reading(text, Some(seconds)) is None,
        numbers_in(trimmed(text)) is None ==> time_at(text, seconds as int) is None,
{
}

} // verus!
