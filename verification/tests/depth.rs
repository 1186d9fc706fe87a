use std::time::{Duration, UNIX_EPOCH};

use feeds2::clock::{archive_year_at, current_archive_year, seconds_of};
use feeds2::depth::{
    list_depth_options, recommend_max_offset, DEFAULT_ARCHIVE_TARGET_YEAR, EARLIEST_ARCHIVE_YEAR,
};

#[test]
fn recommends_offset_by_target_year() {
    assert_eq!(recommend_max_offset(0), 0);
    assert_eq!(recommend_max_offset(2017), 25_000);
    assert_eq!(recommend_max_offset(2015), 50_000);
    assert_eq!(recommend_max_offset(2008), 150_000);
    assert_eq!(recommend_max_offset(2026), 1_500);
}

#[test]
fn recommends_every_year_of_the_table() {
    let table = [
        (2025, 1_500),
        (2024, 1_500),
        (2023, 2_500),
        (2022, 3_500),
        (2021, 5_000),
        (2020, 8_000),
        (2019, 12_000),
        (2018, 18_000),
        (2017, 25_000),
        (2016, 35_000),
        (2015, 50_000),
        (2014, 80_000),
        (2013, 90_000),
        (2012, 100_000),
        (2011, 110_000),
        (2010, 120_000),
        (2009, 130_000),
        (2008, 150_000),
        (1, 150_000),
        (-1, 0),
        (i32::MIN, 0),
        (i32::MAX, 1_500),
    ];
    for (year, offset) in table {
        assert_eq!(recommend_max_offset(year), offset, "year {}", year);
    }
    assert_eq!(recommend_max_offset(DEFAULT_ARCHIVE_TARGET_YEAR), 25_000);
}

#[test]
fn older_years_scan_deeper() {
    for year in 1..2100 {
        assert!(recommend_max_offset(year) >= recommend_max_offset(year + 1));
    }
}

#[test]
fn lists_main_source_then_years_backwards() {
    let options = list_depth_options(2010);
    assert_eq!(options.len(), 4);
    assert_eq!(options[0].target_year, 0);
    assert_eq!(options[0].max_offset, 0);
    assert_eq!(
        options[0].label,
        "仅主源（mobile get_feeds，不启用 feeds2 深扫）"
    );
    assert_eq!(options[1].target_year, 2010);
    assert_eq!(options[1].max_offset, 120_000);
    assert_eq!(options[1].label, "2010 年及更早（offset ≤ 120000）");
    assert_eq!(options[2].target_year, 2009);
    assert_eq!(options[3].target_year, EARLIEST_ARCHIVE_YEAR);
    assert_eq!(options[3].label, "2008 年及更早（offset ≤ 150000）");
}

#[test]
fn lists_only_main_source_before_the_earliest_year() {
    assert_eq!(list_depth_options(2007).len(), 1);
    assert_eq!(list_depth_options(i32::MIN).len(), 1);
}

#[test]
fn reads_the_current_year_from_the_clock() {
    let year = current_archive_year().unwrap();
    assert!(year >= 2024);
    assert!(year < 10_000);
}

#[test]
fn finds_the_year_of_a_reading() {
    assert_eq!(archive_year_at(None), Some(1970));
    assert_eq!(archive_year_at(Some(0)), Some(1970));
    assert_eq!(archive_year_at(Some(1_704_067_199)), Some(2023));
    assert_eq!(archive_year_at(Some(1_704_067_200)), Some(2024));
    assert_eq!(archive_year_at(Some(67_767_976_233_532_800)), None);
    assert_eq!(archive_year_at(Some(u64::MAX)), Some(1970));
}

#[test]
fn takes_whole_seconds_of_the_elapsed_time() {
    assert_eq!(seconds_of(Ok(Duration::from_millis(2_999))), Some(2));
    let later = UNIX_EPOCH + Duration::from_secs(1_700_000_000);
    assert_eq!(seconds_of(later.duration_since(UNIX_EPOCH)), Some(1_700_000_000));
    assert_eq!(seconds_of(UNIX_EPOCH.duration_since(later)), None);
}
