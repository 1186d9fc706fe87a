use feeds2::calendar::LocalParts;
use feeds2::cn_time::{
    parse_cn_time, parse_cn_time_at, parse_cn_time_at_reading, parse_with_layout, read_numbers,
};

const NOW: i64 = 1_700_000_000;

#[test]
fn reads_full_dates() {
    assert_eq!(parse_cn_time_at("2023年11月05日 08:30", NOW), Some(1_699_173_000));
    assert_eq!(parse_cn_time_at("2023年11月05日 08:30:15", NOW), Some(1_699_173_015));
    assert_eq!(parse_cn_time_at("2023-11-05 08:30", NOW), Some(1_699_173_000));
    assert_eq!(parse_cn_time_at("  2023-11-05 08:30:15\n", NOW), Some(1_699_173_015));
}

#[test]
fn reads_dates_without_a_year() {
    assert_eq!(parse_cn_time_at("11月05日 08:30", NOW), Some(1_699_173_000));
}

#[test]
fn reads_times_of_yesterday() {
    assert_eq!(parse_cn_time_at("昨天 12:30", NOW), Some(1_699_878_600));
    assert_eq!(parse_cn_time_at("12:30", NOW), Some(1_699_878_600));
    assert_eq!(parse_cn_time_at("12:30:59", NOW), Some(1_699_878_600));
}

#[test]
fn reads_times_of_the_first_day_as_today() {
    assert_eq!(parse_cn_time_at("1:2", 0), Some(3_720));
    assert_eq!(parse_cn_time_at("1:2", 86_400), Some(3_720));
}

#[test]
fn falls_back_to_the_time_of_day() {
    assert_eq!(parse_cn_time_at("2023-13-05 08:30", NOW), Some(1_707_117_180));
}

#[test]
fn refuses_what_is_no_time() {
    for text in ["", "   ", "刚刚", "12", "１２:３０", "99999999999:30"] {
        assert_eq!(parse_cn_time_at(text, NOW), None, "{}", text);
    }
}

#[test]
fn needs_a_usable_clock() {
    assert_eq!(parse_cn_time_at_reading("2023-11-05 08:30", None), None);
    assert_eq!(
        parse_cn_time_at_reading("2023-11-05 08:30", Some(1_700_000_000)),
        Some(1_699_173_000)
    );
    assert_eq!(
        parse_cn_time_at_reading("2023-11-05 08:30", Some(67_767_976_233_532_800)),
        None
    );
    assert_eq!(parse_cn_time("2023-11-05 08:30"), Some(1_699_173_000));
    assert_eq!(parse_cn_time(" "), None);
    assert!(parse_cn_time("昨天 12:30").is_some());
}

#[test]
fn reads_runs_of_digits() {
    assert_eq!(read_numbers("a12b003c"), Some(vec![12, 3]));
    assert_eq!(read_numbers("2147483647"), Some(vec![2_147_483_647]));
    assert_eq!(read_numbers("2147483648"), None);
    assert_eq!(read_numbers("-5"), Some(vec![5]));
    assert_eq!(read_numbers("1 ٣"), None);
    assert_eq!(read_numbers("无"), Some(vec![]));
}

#[test]
fn reads_each_kind_of_layout() {
    let today = LocalParts { year: 2023, month: 11, day: 14 };
    assert_eq!(parse_with_layout("12:30", "%H:%M", today, 3), Some(1_699_965_000));
    assert_eq!(parse_with_layout("12:30", "昨天 %H:%M", today, 2), Some(1_699_878_600));
    assert_eq!(parse_with_layout("12:30", "%m月%d日 %H:%M", today, 1), None);
    assert_eq!(parse_with_layout("12:30", "%Y-%m-%d %H:%M", today, 0), None);
    assert_eq!(parse_with_layout("12:30", "", today, 4), None);
    let first = LocalParts { year: 1970, month: 1, day: 1 };
    assert_eq!(parse_with_layout("12:30", "昨天 %H:%M", first, 2), None);
    let none = LocalParts { year: 2023, month: u32::MAX, day: 14 };
    assert_eq!(parse_with_layout("12:30", "%H:%M", none, 3), None);
}
