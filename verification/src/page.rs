//! One page of the supplement source, and where the scan goes on behind it.

use vstd::prelude::*;

use crate::activity::{
    activity_to_feed_value, feed_value, law_record_content, law_record_key_and_time,
    law_record_names_the_sender, ParsedActivity,
};
use crate::checkpoint::{checkpoint_of, law_checkpoint_reads_back, offset_of};
use crate::clock::is_clock_reading;
use crate::items::{
    activity_of, are_activities, can_be_read, page_items, parse_activities_from_html, ItemModel,
};
use crate::response::{has_more_feeds, MORE_FEEDS};
use crate::text::{law_mentioned_part_splits_text, mentions};
use crate::value::{FeedValue, ValueModel};

verus! {

/// How many feeds are asked for at a time.
pub const FEEDS2_PAGE_SIZE: i64 = 30;

/// A page of feed records, the offset behind it, and whether there is more to scan.
pub struct SupplementFeedPage {
    pub feeds: Vec<FeedValue>,
    pub next_offset: i64,
    pub has_more: bool,
}

/// Whether the scan has nothing to ask for: it is switched off, or past its depth.
pub open spec fn scan_is_over(offset: int, max_offset: int) -> bool {
    max_offset <= 0 || offset > max_offset
}

/// `n`, or the nearest 64-bit integer to it.
pub open spec fn saturated(n: int) -> int {
    if n > i64::MAX {
        i64::MAX as int
    } else if n < i64::MIN {
        i64::MIN as int
    } else {
        n
    }
}

/// The offset behind a page of `count` feeds: a whole page on if it was empty.
pub open spec fn next_offset_of(offset: int, count: int) -> int {
    if count == 0 {
        saturated(offset + FEEDS2_PAGE_SIZE)
    } else {
        saturated(offset + saturated(count))
    }
}

/// Whether there is more behind a page: its body says so, it held a feed, and the offset
/// behind it is within the depth.
pub open spec fn more_behind(raw: Seq<char>, count: int, offset: int, max_offset: int) -> bool {
    mentions(raw, MORE_FEEDS@) && count > 0 && next_offset_of(offset, count) <= max_offset
}

/// Whether the records are those of the activities.
pub open spec fn are_records(
    feeds: Seq<FeedValue>,
    activities: Seq<ParsedActivity>,
    owner_uin: Seq<char>,
) -> bool {
    &&& feeds.len() == activities.len()
    &&& forall|i: int|
        0 <= i < activities.len() ==> (#[trigger] feeds[i]).model() == feed_value(
            activities[i]@,
            owner_uin,
        )
}

/// Whether the records are those of the items, each seen at its own reading of the clock.
pub open spec fn are_records_of(
    feeds: Seq<FeedValue>,
    items: Seq<ItemModel>,
    owner_uin: Seq<char>,
    readings: Seq<Option<u64>>,
) -> bool {
    &&& feeds.len() == items.len()
    &&& readings.len() == items.len()
    &&& forall|i: int| 0 <= i < readings.len() ==> is_clock_reading(#[trigger] readings[i])
    &&& forall|i: int|
        0 <= i < items.len() ==> (#[trigger] feeds[i]).model() == feed_value(
            activity_of(items[i], owner_uin, readings[i]),
            owner_uin,
        )
}

/// Whether the records are those of the items, whatever the clock read.
pub open spec fn record_items(
    feeds: Seq<FeedValue>,
    items: Seq<ItemModel>,
    owner_uin: Seq<char>,
) -> bool {
    exists|readings: Seq<Option<u64>>| are_records_of(feeds, items, owner_uin, readings)
}

fn saturating_sum(a: i64, b: i64) -> (r: i64)
    ensures
        r == saturated(a + b),
{
    let sum: i128 = a as i128 + b as i128;
    if sum > i64::MAX as i128 {
        i64::MAX
    } else if sum < i64::MIN as i128 {
        i64::MIN
    } else {
        sum as i64
    }
}

/// The empty page that ends a scan without asking for anything, where the scan is over.
pub fn finished_page(offset: i64, max_offset: i64) -> (r: Option<SupplementFeedPage>)
    ensures
        r is Some <==> scan_is_over(offset as int, max_offset as int),
        r matches Some(page) ==> page.feeds@.len() == 0 && page.next_offset == offset
            && !page.has_more,
{
    if max_offset <= 0 || offset > max_offset {
        Some(SupplementFeedPage { feeds: Vec::new(), next_offset: offset, has_more: false })
    } else {
        None
    }
}

/// The page that a body with the given activities is.
pub fn page_of_activities(
    activities: &Vec<ParsedActivity>,
    raw: &str,
    owner_uin: &str,
    offset: i64,
    max_offset: i64,
) -> (page: SupplementFeedPage)
    ensures
        are_records(page.feeds@, activities@, owner_uin@),
        page.next_offset == next_offset_of(offset as int, activities@.len() as int),
        page.has_more == more_behind(
            raw@,
            activities@.len() as int,
            offset as int,
            max_offset as int,
        ),
{
    let mut feeds: Vec<FeedValue> = Vec::new();
    let mut i: usize = 0;
    while i < activities.len()
        invariant
            i <= activities@.len(),
            feeds@.len() == i,
            forall|k: int|
                0 <= k < i ==> (#[trigger] feeds@[k]).model() == feed_value(
                    activities@[k]@,
                    owner_uin@,
                ),
        decreases activities@.len() - i,
    {
        feeds.push(activity_to_feed_value(&activities[i], owner_uin));
        i = i + 1;
    }
    let count: usize = feeds.len();
    let step: i64 = if count == 0 {
        FEEDS2_PAGE_SIZE
    } else if count as u128 > i64::MAX as u128 {
        i64::MAX
    } else {
        count as i64
    };
    let advanced: i64 = saturating_sum(offset, step);
    let has_more: bool = has_more_feeds(raw) && count > 0 && advanced <= max_offset;
    SupplementFeedPage { feeds, next_offset: advanced, has_more }
}

/// The page that a response body is: `raw` as it came, and the HTML that was made of it.
pub fn supplement_page(
    raw: &str,
    processed_html: &str,
    owner_uin: &str,
    offset: i64,
    max_offset: i64,
) -> (r: Result<SupplementFeedPage, String>)
    requires
        can_be_read(processed_html@),
    ensures
        r is Ok,
        page_items(processed_html@) is Ok,
        r matches Ok(page) ==> {
            &&& record_items(page.feeds@, page_items(processed_html@)->Ok_0, owner_uin@)
            &&& page.next_offset == next_offset_of(offset as int, page.feeds@.len() as int)
            &&& page.has_more == more_behind(
                raw@,
                page.feeds@.len() as int,
                offset as int,
                max_offset as int,
            )
        },
{
    let activities = match parse_activities_from_html(processed_html, owner_uin) {
        Ok(activities) => activities,
        Err(error) => {
            return Err(error);
        },
    };
    let page = page_of_activities(&activities, raw, owner_uin, offset, max_offset);
    proof {
        let items = page_items(processed_html@)->Ok_0;
        let readings = choose|readings: Seq<Option<u64>>|
            are_activities(activities@, items, owner_uin@, readings);
        assert(are_records_of(page.feeds@, items, owner_uin@, readings)) by {
            assert forall|i: int| 0 <= i < items.len() implies (
            #[trigger] page.feeds@[i]).model() == feed_value(
                activity_of(items[i], owner_uin@, readings[i]),
                owner_uin@,
            ) by {
                assert(activities@[i]@ == activity_of(items[i], owner_uin@, readings[i]));
            }
        }
    }
    Ok(page)
}

/// A scan that is told to go on has moved forward and is still within its depth, so that it
/// comes to an end. The last offset of all is left out: nothing comes behind it.
pub proof fn law_scan_moves_forward(raw: Seq<char>, count: int, offset: int, max_offset: int)
    requires
        !scan_is_over(offset, max_offset),
        more_behind(raw, count, offset, max_offset),
        i64::MIN <= offset < i64::MAX,
    ensures
        offset < next_offset_of(offset, count),
        !scan_is_over(next_offset_of(offset, count), max_offset),
{
}

/// No page moves the scan back.
pub proof fn law_scan_never_moves_back(count: int, offset: int)
    requires
        count >= 0,
        i64::MIN <= offset <= i64::MAX,
    ensures
        offset <= next_offset_of(offset, count) <= i64::MAX,
{
}

/// A scan that is told to go on holds a feed on this page; an empty page ends it.
pub proof fn law_empty_page_ends_scan(raw: Seq<char>, offset: int, max_offset: int)
    ensures
        !more_behind(raw, 0, offset, max_offset),
{
}

/// The offset behind a page can be saved as a checkpoint and read back.
pub proof fn law_next_offset_can_be_saved(count: int, offset: int)
    requires
        count >= 0,
        0 <= offset <= i64::MAX,
    ensures
        offset_of(checkpoint_of(next_offset_of(offset, count))) == Some(
            next_offset_of(offset, count),
        ),
{
    law_checkpoint_reads_back(next_offset_of(offset, count));
}

/// There is more behind a page whose body says so, that holds a record, however many, and whose
/// end is within the depth.
pub proof fn law_scan_goes_on_while_there_is_more(
    before: Seq<char>,
    after: Seq<char>,
    count: int,
    offset: int,
    max_offset: int,
)
    requires
        count > 0,
        i64::MIN <= offset,
        offset + count <= max_offset <= i64::MAX,
    ensures
        more_behind(before + "hasMoreFeeds:true"@ + after, count, offset, max_offset),
{
    law_mentioned_part_splits_text(before, "hasMoreFeeds:true"@);
}

/// A body that does not say so has nothing behind it, nor has an empty page, nor one whose end
/// is past the depth.
pub proof fn law_scan_ends_without_more(raw: Seq<char>, count: int, offset: int, max_offset: int)
    requires
        0 <= count <= i64::MAX,
        i64::MIN <= offset <= i64::MAX,
        max_offset < i64::MAX,
        !mentions(raw, "hasMoreFeeds:true"@) || count == 0 || offset + count > max_offset,
    ensures
        !more_behind(raw, count, offset, max_offset),
{
}

/// Where the scan goes on: behind the records of the page, or a page of thirty further where it
/// held none; and at the last offset of all where that would be past it.
pub proof fn law_offset_behind_a_page(count: int, offset: int)
    requires
        0 <= count <= i64::MAX,
        i64::MIN <= offset <= i64::MAX,
    ensures
        count > 0 && offset + count <= i64::MAX ==> next_offset_of(offset, count) == offset + count,
        offset + 30 <= i64::MAX ==> next_offset_of(offset, 0) == offset + 30,
        count > 0 && offset + count > i64::MAX ==> next_offset_of(offset, count) == i64::MAX,
        offset + 30 > i64::MAX ==> next_offset_of(offset, 0) == i64::MAX,
{
}

/// A scan asks for a page exactly if it has a depth and is within it.
pub proof fn law_scan_needs_a_depth(offset: int, max_offset: int)
    ensures
        !scan_is_over(offset, max_offset) <==> 0 < max_offset && offset <= max_offset,
{
}

/// A page holds one record for every activity, in order, and each is that activity's.
pub proof fn law_records_keep_their_order(
    feeds: Seq<FeedValue>,
    activities: Seq<ParsedActivity>,
    owner_uin: Seq<char>,
    i: int,
)
    requires
        are_records(feeds, activities, owner_uin),
        0 <= i < activities.len(),
    ensures
        feeds.len() == activities.len(),
        feeds[i].model() == feed_value(activities[i]@, owner_uin),
        feeds[i].model().at(seq!["userinfo"@, "user"@, "uin"@]) == Some(
            ValueModel::Text(activities[i].sender_uin@),
        ),
        feeds[i].model().at(seq!["original"@, "cell_summary"@, "summary"@]) == Some(
            ValueModel::Text(activities[i].content@),
        ),
        feeds[i].model().at(seq!["comm"@, "time"@]) == Some(
            ValueModel::Number(activities[i].event_time as int),
        ),
{
    law_record_names_the_sender(activities[i]@, owner_uin);
    law_record_content(activities[i]@, owner_uin);
    law_record_key_and_time(activities[i]@, owner_uin);
}

/// A page made of items holds one record for every item, in order, each of the activity that the
/// item shows at a reading of the clock.
pub proof fn law_items_keep_their_order(
    feeds: Seq<FeedValue>,
    items: Seq<ItemModel>,
    owner_uin: Seq<char>,
    i: int,
)
    requires
        record_items(feeds, items, owner_uin),
        0 <= i < items.len(),
    ensures
        feeds.len() == items.len(),
        exists|reading: Option<u64>| #[trigger]
            is_clock_reading(reading) && feeds[i].model() == feed_value(
                activity_of(items[i], owner_uin, reading),
                owner_uin,
            ),
{
    let readings = choose|readings: Seq<Option<u64>>|
        are_records_of(feeds, items, owner_uin, readings);
    assert(is_clock_reading(readings[i]));
    assert(feeds[i].model() == feed_value(
        activity_of(items[i], owner_uin, readings[i]),
        owner_uin,
    ));
}

} // verus!
