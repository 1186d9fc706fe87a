//! How deep the supplement source has to be scanned to reach a given year.

use vstd::prelude::*;

use crate::numbers::{decimal, decimal_string};

verus! {

/// The first year that can be archived.
pub const EARLIEST_ARCHIVE_YEAR: i32 = 2008;

/// The year that is archived back to unless another is chosen.
pub const DEFAULT_ARCHIVE_TARGET_YEAR: i32 = 2017;

/// The label of the option that scans the main source only.
pub const MAIN_SOURCE_LABEL: &'static str = "仅主源（mobile get_feeds，不启用 feeds2 深扫）";

/// One choice of archive depth.
#[derive(Debug, Clone)]
pub struct ArchiveDepthOption {
    pub target_year: i32,
    pub max_offset: i64,
    pub label: String,
}

/// The largest offset to scan for a year: nothing for no year, and more the older it is.
pub open spec fn recommended(year: int) -> int {
    if year <= 0 {
        0
    } else if year >= 2024 {
        1_500
    } else if year == 2023 {
        2_500
    } else if year == 2022 {
        3_500
    } else if year == 2021 {
        5_000
    } else if year == 2020 {
        8_000
    } else if year == 2019 {
        12_000
    } else if year == 2018 {
        18_000
    } else if year == 2017 {
        25_000
    } else if year == 2016 {
        35_000
    } else if year == 2015 {
        50_000
    } else if year == 2014 {
        80_000
    } else if year == 2013 {
        90_000
    } else if year == 2012 {
        100_000
    } else if year == 2011 {
        110_000
    } else if year == 2010 {
        120_000
    } else if year == 2009 {
        130_000
    } else {
        150_000
    }
}

/// The label of the option for a year.
pub open spec fn year_label(year: int) -> Seq<char> {
    decimal(year) + " 年及更早（offset ≤ "@ + decimal(recommended(year)) + "）"@
}

/// Whether `option` is the choice of scanning back to `year`.
pub open spec fn is_year_option(option: ArchiveDepthOption, year: int) -> bool {
    &&& option.target_year == year
    &&& option.max_offset == recommended(year)
    &&& option.label@ == year_label(year)
}

/// Whether `option` is the choice of not scanning the supplement source.
pub open spec fn is_main_source_option(option: ArchiveDepthOption) -> bool {
    &&& option.target_year == 0
    &&& option.max_offset == 0
    &&& option.label@ == MAIN_SOURCE_LABEL@
}

/// How many years there are to choose from.
pub open spec fn years_offered(current_year: int) -> int {
    if current_year < EARLIEST_ARCHIVE_YEAR {
        0
    } else {
        current_year - EARLIEST_ARCHIVE_YEAR + 1
    }
}

/// Whether `options` are the choices in `current_year`: the main source only, then the years
/// from the current one back to the earliest.
pub open spec fn are_depth_options(options: Seq<ArchiveDepthOption>, current_year: int) -> bool {
    &&& options.len() == 1 + years_offered(current_year)
    &&& is_main_source_option(options[0])
    &&& forall|i: int|
        1 <= i < options.len() ==> is_year_option(#[trigger] options[i], current_year - (i - 1))
}

/// The largest offset of the supplement source to scan to reach `target_year`.
pub fn recommend_max_offset(target_year: i32) -> (r: i64)
    ensures
        r == recommended(target_year as int),
{
    if target_year <= 0 {
        return 0;
    }
    match target_year {
        year if year >= 2024 => 1_500,
        2023 => 2_500,
        2022 => 3_500,
        2021 => 5_000,
        2020 => 8_000,
        2019 => 12_000,
        2018 => 18_000,
        2017 => 25_000,
        2016 => 35_000,
        2015 => 50_000,
        2014 => 80_000,
        2013 => 90_000,
        2012 => 100_000,
        2011 => 110_000,
        2010 => 120_000,
        2009 => 130_000,
        _ => 150_000,
    }
}

/// The choices of archive depth in `current_year`.
pub fn list_depth_options(current_year: i32) -> (options: Vec<ArchiveDepthOption>)
    ensures
        are_depth_options(options@, current_year as int),
{
    let mut options: Vec<ArchiveDepthOption> = Vec::new();
    options.push(
        ArchiveDepthOption { target_year: 0, max_offset: 0, label: MAIN_SOURCE_LABEL.to_owned() },
    );
    let mut year: i32 = current_year;
    while year >= EARLIEST_ARCHIVE_YEAR
        invariant
            year <= current_year,
            year >= EARLIEST_ARCHIVE_YEAR - 1 || year == current_year,
            options@.len() == 1 + current_year - year,
            is_main_source_option(options@[0]),
            forall|i: int|
                1 <= i < options@.len() ==> is_year_option(
                    #[trigger] options@[i],
                    current_year - (i - 1),
                ),
        decreases year - EARLIEST_ARCHIVE_YEAR + 1,
    {
        let max_offset: i64 = recommend_max_offset(year);
        let mut label = decimal_string(year as i64);
        label.append(" 年及更早（offset ≤ ");
        label.append(decimal_string(max_offset).as_str());
        label.append("）");
        options.push(ArchiveDepthOption { target_year: year, max_offset, label });
        year = year - 1;
    }
    options
}

/// Going further back never asks for a smaller offset.
pub proof fn law_older_years_scan_deeper(older: int, newer: int)
    requires
        0 < older <= newer,
    ensures
        recommended(older) >= recommended(newer) > 0,
        recommended(older) <= 150_000,
{
}

/// The choices run from the newest year to the oldest, each year once, none below the earliest,
/// and their offsets never shrink.
pub proof fn law_depth_options_are_ordered(
    options: Seq<ArchiveDepthOption>,
    current_year: int,
    i: int,
    j: int,
)
    requires
        are_depth_options(options, current_year),
        1 <= i < j < options.len(),
    ensures
        options[i].target_year > options[j].target_year >= EARLIEST_ARCHIVE_YEAR,
        options[i].max_offset <= options[j].max_offset,
{
    law_older_years_scan_deeper(options[j].target_year as int, options[i].target_year as int);
}

/// Every year from the earliest to the current one is among the choices.
pub proof fn law_every_year_is_offered(
    options: Seq<ArchiveDepthOption>,
    current_year: int,
    year: int,
)
    requires
        are_depth_options(options, current_year),
        EARLIEST_ARCHIVE_YEAR <= year <= current_year,
    ensures
        exists|i: int| 1 <= i < options.len() && is_year_option(#[trigger] options[i], year),
{
    let i = current_year - year + 1;
    assert(is_year_option(options[i], year));
}

/// Which years each depth is meant for. Year zero and below ask for none.
pub proof fn law_depth_of_every_year(year: int)
    ensures
        recommended(year) == 0 <==> year <= 0,
        recommended(year) == 1_500 <==> year > 2023,
        recommended(year) == 2_500 <==> year == 2023,
        recommended(year) == 3_500 <==> year == 2022,
        recommended(year) == 5_000 <==> year == 2021,
        recommended(year) == 8_000 <==> year == 2020,
        recommended(year) == 12_000 <==> year == 2019,
        recommended(year) == 18_000 <==> year == 2018,
        recommended(year) == 25_000 <==> year == 2017,
        recommended(year) == 35_000 <==> year == 2016,
        recommended(year) == 50_000 <==> year == 2015,
        recommended(year) == 80_000 <==> year == 2014,
        recommended(year) == 90_000 <==> year == 2013,
        recommended(year) == 100_000 <==> year == 2012,
        recommended(year) == 110_000 <==> year == 2011,
        recommended(year) == 120_000 <==> year == 2010,
        recommended(year) == 130_000 <==> year == 2009,
        recommended(year) == 150_000 <==> 0 < year < 2009,
{
}

/// The choices, one by one: the first switches the supplement source off, the one behind it is
/// for the current year, each further one for the year before, and the last for the earliest
/// year. Every label names the year and the offset of its choice.
pub proof fn law_depth_options_one_by_one(
    options: Seq<ArchiveDepthOption>,
    current_year: int,
    i: int,
)
    requires
        are_depth_options(options, current_year),
        1 <= i < options.len(),
    ensures
        options[0].target_year == 0,
        options[0].max_offset == 0,
        options[0].label@ == "仅主源（mobile get_feeds，不启用 feeds2 深扫）"@,
        options[1].target_year == current_year,
        options.last().target_year == 2008,
        i + 1 < options.len() ==> options[i + 1].target_year == options[i].target_year - 1,
        options[i].max_offset == recommended(options[i].target_year as int),
        options[i].label@ == decimal(options[i].target_year as int) + " 年及更早（offset ≤ "@ + decimal(
            options[i].max_offset as int,
        ) + "）"@,
{
    assert(is_year_option(options[i], current_year - (i - 1)));
    assert(is_year_option(options[1], current_year));
    assert(is_year_option(options.last(), current_year - (options.len() - 2)));
    if i + 1 < options.len() {
        assert(is_year_option(options[i + 1], current_year - i));
    }
}

/// Before the earliest year there is nothing to choose but the main source.
pub proof fn law_no_year_before_the_earliest(
    options: Seq<ArchiveDepthOption>,
    current_year: int,
)
    requires
        are_depth_options(options, current_year),
    ensures
        options.len() == 1 <==> current_year < 2008,
        options[0].max_offset == 0,
{
}

} // verus!
