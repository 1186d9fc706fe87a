use feeds2::calendar::{
    chrono_now_parts, chrono_offset_year, is_leap, is_leap_year, to_unix, unix_to_parts,
    LocalParts,
};

#[test]
fn knows_leap_years() {
    for year in [1972, 2000, 2024, 2400, 0, -4] {
        assert!(is_leap(year) && is_leap_year(year));
    }
    for year in [1970, 1900, 2023, 2100, -1] {
        assert!(!is_leap(year) && !is_leap_year(year));
    }
}

#[test]
fn finds_the_year_of_a_timestamp() {
    assert_eq!(chrono_offset_year(0), 1970);
    assert_eq!(chrono_offset_year(-1), 1970);
    assert_eq!(chrono_offset_year(i64::MIN), 1970);
    assert_eq!(chrono_offset_year(1_704_067_199), 2023);
    assert_eq!(chrono_offset_year(1_704_067_200), 2024);
}

#[test]
fn finds_the_date_of_a_timestamp() {
    let date = |year, month, day| LocalParts { year, month, day };
    assert_eq!(chrono_now_parts(0), date(1970, 1, 1));
    assert_eq!(chrono_now_parts(1_700_000_000), date(2023, 11, 14));
    assert_eq!(chrono_now_parts(1_709_164_800), date(2024, 2, 29));
    assert_eq!(chrono_now_parts(1_709_164_800 + 86_400), date(2024, 3, 1));
    assert_eq!(unix_to_parts(1_704_067_199), date(2023, 12, 31));
}

#[test]
fn days_before_the_first_have_no_date() {
    assert_eq!(unix_to_parts(-1).day, 1);
    assert_eq!(unix_to_parts(-86_400).day, 0);
    assert_eq!(unix_to_parts(-2 * 86_400).day, u32::MAX);
}

#[test]
fn counts_seconds() {
    assert_eq!(to_unix(1970, 1, 1, 0, 0, 0), Some(0));
    assert_eq!(to_unix(2023, 11, 14, 22, 13, 20), Some(1_700_000_000));
    assert_eq!(to_unix(2024, 2, 29, 0, 0, 0), Some(1_709_164_800));
    assert_eq!(to_unix(2023, 2, 31, 0, 0, 0), to_unix(2023, 3, 3, 0, 0, 0));
    assert_eq!(to_unix(1960, 1, 2, 0, 0, 0), Some(86_400));
    assert_eq!(to_unix(2023, 1, 1, 25, -1, 0), to_unix(2023, 1, 2, 0, 59, 0));
}

#[test]
fn refuses_months_and_days_out_of_range() {
    for (month, day) in [(0, 1), (13, 1), (-1, 1), (1, 0), (1, 32), (1, -5)] {
        assert_eq!(to_unix(2023, month, day, 0, 0, 0), None);
    }
}

#[test]
fn dates_and_seconds_undo_each_other() {
    let mut now: i64 = 12_345;
    while now < 5_000_000_000 {
        let date = chrono_now_parts(now);
        let midnight = to_unix(date.year, date.month as i32, date.day as i32, 0, 0, 0).unwrap();
        assert_eq!(midnight, now - now % 86_400);
        assert_eq!(chrono_now_parts(midnight), date);
        assert_eq!(chrono_offset_year(now), date.year);
        now += 86_400 * 13 + 7;
    }
}
