//! The items of a feed page, as the `scraper` crate finds them in its HTML.

use scraper::{Html, Selector};
use vstd::prelude::*;
use vstd::utf8::encode_utf8;

use crate::activity::{classify_activity, kind_of, ActivityModel, ParsedActivity};
use crate::clock::{is_clock_reading, read_clock};
use crate::cn_time::{parse_cn_time_at_reading, time_at_reading};
use crate::collapse::{collapse_whitespace, collapsed, is_collapsed, law_collapsed_text};
use crate::text::{
    contains, is_blank, is_white_space, join, joined, law_joining_lists,
    law_prefix_makes_no_difference, law_prefixes_are_gone, law_replacing_nothing,
    law_trimmed_text_stands_within, mentions, occurs_at, replace, replaced, texts, trim,
    trim_start_matches, trimmed, without_prefixes,
};

verus! {

/// The parser keeps text in buffers that grow to two to the 31 bytes at most.
pub const PARSER_BUFFER_BYTES: u64 = 2_147_483_648;

/// Selects the items of a page.
pub const ITEM_SELECTOR: &'static str = "li.f-single.f-s-s";

/// Selects the name of an item's sender.
pub const NAME_SELECTOR: &'static str = "a.f-name.q_namecard";

/// Selects the time of an item.
pub const TIME_SELECTOR: &'static str = "div.info-detail";

/// Selects the text of an item.
pub const CONTENT_SELECTOR: &'static str = "p.txt-box-title.ellipsis-one";

/// Selects the pictures of an item.
pub const IMAGE_SELECTOR: &'static str = "a.img-item img";

/// Selects what an item says of its sender's doing.
pub const STATE_SELECTOR: &'static str = "span.state";

/// Selects the text that an item reprints.
pub const REPRINT_SELECTOR: &'static str = "div.f-reprint div.f-info";

/// An element of a page: its text, and the one attribute that was asked for.
#[derive(Debug, Clone)]
pub struct HtmlNode {
    pub text: String,
    pub attribute: Option<String>,
}

/// What an element of a page holds: its text and the attribute.
pub type NodeModel = (Seq<char>, Option<Seq<char>>);

/// The elements of one item, by what they are.
pub struct FeedItem<'a> {
    pub names: &'a Vec<HtmlNode>,
    pub times: &'a Vec<HtmlNode>,
    pub contents: &'a Vec<HtmlNode>,
    pub images: &'a Vec<HtmlNode>,
    pub states: &'a Vec<HtmlNode>,
    pub reprints: &'a Vec<HtmlNode>,
}

/// What the elements of one item hold.
pub ghost struct ItemModel {
    pub names: Seq<NodeModel>,
    pub times: Seq<NodeModel>,
    pub contents: Seq<NodeModel>,
    pub images: Seq<NodeModel>,
    pub states: Seq<NodeModel>,
    pub reprints: Seq<NodeModel>,
}

/// The characters of an optional string.
pub open spec fn optional_view(text: Option<String>) -> Option<Seq<char>> {
    match text {
        Some(text) => Some(text@),
        None => None,
    }
}

impl View for HtmlNode {
    type V = NodeModel;

    open spec fn view(&self) -> NodeModel {
        (self.text@, optional_view(self.attribute))
    }
}

/// What a list of elements holds.
pub open spec fn nodes_model(nodes: Seq<HtmlNode>) -> Seq<NodeModel> {
    nodes.map_values(|node: HtmlNode| node@)
}

impl<'a> View for FeedItem<'a> {
    type V = ItemModel;

    open spec fn view(&self) -> ItemModel {
        ItemModel {
            names: nodes_model(self.names@),
            times: nodes_model(self.times@),
            contents: nodes_model(self.contents@),
            images: nodes_model(self.images@),
            states: nodes_model(self.states@),
            reprints: nodes_model(self.reprints@),
        }
    }
}

/// What the elements of one item hold, one list for every query.
pub open spec fn groups_model(groups: Seq<Vec<HtmlNode>>) -> Seq<Seq<NodeModel>> {
    groups.map_values(|nodes: Vec<HtmlNode>| nodes_model(nodes@))
}

/// What the elements of all items hold, or the text of an error.
pub open spec fn result_model(result: Result<Vec<Vec<Vec<HtmlNode>>>, String>) -> Result<
    Seq<Seq<Seq<NodeModel>>>,
    Seq<char>,
> {
    match result {
        Ok(items) => Ok(items@.map_values(|groups: Vec<Vec<HtmlNode>>| groups_model(groups@))),
        Err(error) => Err(error@),
    }
}

/// Queries as plain pairs of a selector and an attribute's name.
pub open spec fn queries_model(queries: Seq<(&'static str, &'static str)>) -> Seq<
    (Seq<char>, Seq<char>),
> {
    queries.map_values(|query: (&'static str, &'static str)| (query.0@, query.1@))
}

/// Whether `&nLt;` or `&nGt;` stands at `i`: the character references that become longer, from
/// five bytes to six.
pub open spec fn growing_reference_at(bytes: Seq<u8>, i: int) -> bool {
    &&& i + 5 <= bytes.len()
    &&& bytes[i] == '&' as u8
    &&& bytes[i + 1] == 'n' as u8
    &&& bytes[i + 2] == 'L' as u8 || bytes[i + 2] == 'G' as u8
    &&& bytes[i + 3] == 't' as u8
    &&& bytes[i + 4] == ';' as u8
}

/// How many bytes what stands at `i` can gain in the parser: a zero byte can become three bytes,
/// and a few character references are one byte shorter than what they stand for.
pub open spec fn growth_at(bytes: Seq<u8>, i: int) -> int {
    if bytes[i] == 0 {
        2
    } else if growing_reference_at(bytes, i) {
        1
    } else {
        0
    }
}

/// How many bytes what stands before `end` can gain in the parser.
pub open spec fn growth_before(bytes: Seq<u8>, end: int) -> int
    decreases end,
{
    if end <= 0 {
        0
    } else {
        growth_before(bytes, end - 1) + growth_at(bytes, end - 1)
    }
}

/// Whether a page fits in the parser's buffers, even if all of it ends up in one.
pub open spec fn fits_parser(html: Seq<char>) -> bool {
    let bytes = encode_utf8(html);
    bytes.len() + growth_before(bytes, bytes.len() as int) <= PARSER_BUFFER_BYTES
}

/// What `scraper` finds in a page: for every element that `outer` selects, and for every query,
/// the elements below it that the query selects, each with its text and its attribute; or the
/// text of the error for the first selector that is none.
pub uninterp spec fn nested_elements(
    html: Seq<char>,
    outer: Seq<char>,
    queries: Seq<(Seq<char>, Seq<char>)>,
) -> Result<Seq<Seq<Seq<(Seq<char>, Option<Seq<char>>)>>>, Seq<char>>;

/// `Html::parse_document` on the page, then `select` for the elements of `outer` and again for
/// the elements of every query below each of them, with the collected `text` and the `attr` of
/// each. What is found depends on the arguments alone, and every item has one list of elements
/// for every query. The selectors of an item's page are no errors: each names an element and
/// classes of it, or a descendant of such an element, and `Selector::parse` reads these.
/// A page that does not fit is left out: the parser panics where a buffer would have to grow
/// past [`PARSER_BUFFER_BYTES`].
#[verifier::external_body]
pub(crate) fn select_nested(
    html: &str,
    outer: &str,
    queries: &Vec<(&'static str, &'static str)>,
) -> (r: Result<Vec<Vec<Vec<HtmlNode>>>, String>)
    requires
        fits_parser(html@),
    ensures
        result_model(r) == nested_elements(html@, outer@, queries_model(queries@)),
        r matches Ok(items) ==> forall|i: int|
            0 <= i < items@.len() ==> (#[trigger] items@[i])@.len() == queries@.len(),
        outer@ == ITEM_SELECTOR@ && queries_model(queries@) == item_queries() ==> r is Ok,
{
    let parse = |selector| Selector::parse(selector).map_err(|error| error.to_string());
    let document = Html::parse_document(html);
    let outer = parse(outer)?;
    let inner = queries.iter().map(|query| parse(query.0)).collect::<Result<Vec<_>, _>>()?;
    let items = document.select(&outer).map(|item| {
        let below = inner.iter().zip(queries).map(|(selector, query)| {
            let nodes = item.select(selector).map(|found| HtmlNode {
                text: found.text().collect(),
                attribute: found.attr(query.1).map(str::to_owned),
            });
            nodes.collect()
        });
        below.collect()
    });
    Ok(items.collect())
}

/// What is asked of every item, and the attribute that is read.
pub open spec fn item_queries() -> Seq<(Seq<char>, Seq<char>)> {
    seq![
        (NAME_SELECTOR@, "link"@),
        (TIME_SELECTOR@, ""@),
        (CONTENT_SELECTOR@, ""@),
        (IMAGE_SELECTOR@, "src"@),
        (STATE_SELECTOR@, ""@),
        (REPRINT_SELECTOR@, ""@),
    ]
}

/// The elements of one item, named.
pub open spec fn item_of(groups: Seq<Seq<NodeModel>>) -> ItemModel {
    ItemModel {
        names: groups[0],
        times: groups[1],
        contents: groups[2],
        images: groups[3],
        states: groups[4],
        reprints: groups[5],
    }
}

/// Whether a page is worth parsing: it is not blank and could hold an item.
pub open spec fn may_hold_items(html: Seq<char>) -> bool {
    trimmed(html).len() > 0 && mentions(html, "li"@)
}

/// Whether a page can be read: it need not be parsed, or it fits in the parser's buffers.
pub open spec fn can_be_read(html: Seq<char>) -> bool {
    may_hold_items(html) ==> fits_parser(html)
}

/// The items of a page, or the text of an error.
pub open spec fn page_items(html: Seq<char>) -> Result<Seq<ItemModel>, Seq<char>> {
    if !may_hold_items(html) {
        Ok(Seq::empty())
    } else {
        match nested_elements(html, ITEM_SELECTOR@, item_queries()) {
            Ok(items) => Ok(items.map_values(|groups: Seq<Seq<NodeModel>>| item_of(groups))),
            Err(error) => Err(error),
        }
    }
}

/// The collapsed text of the first element; empty where there is none.
pub open spec fn first_text(nodes: Seq<NodeModel>) -> Seq<char> {
    if nodes.len() > 0 {
        collapsed(nodes[0].0)
    } else {
        Seq::empty()
    }
}

/// The account of the sender: the attribute of the first name, without its prefix.
pub open spec fn sender_uin_of(names: Seq<NodeModel>) -> Seq<char> {
    if names.len() > 0 && names[0].1 is Some {
        without_prefixes(names[0].1.unwrap(), "nameCard_"@)
    } else {
        Seq::empty()
    }
}

/// The attributes of those elements that have it.
pub open spec fn attributes_of(nodes: Seq<NodeModel>) -> Seq<Seq<char>>
    decreases nodes.len(),
{
    if nodes.len() == 0 {
        Seq::empty()
    } else {
        match nodes.last().1 {
            Some(attribute) => attributes_of(nodes.drop_last()).push(attribute),
            None => attributes_of(nodes.drop_last()),
        }
    }
}

/// The collapsed texts of the elements, with a space between each two.
pub open spec fn joined_text(nodes: Seq<NodeModel>) -> Seq<char> {
    joined(nodes.map_values(|node: NodeModel| collapsed(node.0)), " "@)
}

/// What an item is about: the text it reprints, and otherwise its own, with plain spaces for
/// non-breaking ones.
pub open spec fn content_of(item: ItemModel) -> Seq<char> {
    if item.reprints.len() > 0 {
        collapsed(item.reprints[0].0)
    } else {
        replaced(first_text(item.contents), "\u{a0}"@, " "@)
    }
}

/// The seconds that a time text writes at a reading of the clock; zero where it writes none.
pub open spec fn event_time_of(time_text: Seq<char>, reading: Option<u64>) -> int {
    match time_at_reading(time_text, reading) {
        Some(unix) => unix,
        None => 0,
    }
}

/// Whether `time` is what a time text writes at some reading of the clock, or zero where it
/// writes nothing then.
pub open spec fn is_time_of_text(time: int, time_text: Seq<char>) -> bool {
    exists|reading: Option<u64>|
        #[trigger] is_clock_reading(reading) && time == event_time_of(time_text, reading)
}

/// The activity that an item shows, seen at a reading of the clock.
pub open spec fn activity_of(
    item: ItemModel,
    owner_uin: Seq<char>,
    reading: Option<u64>,
) -> ActivityModel {
    ActivityModel {
        sender_uin: sender_uin_of(item.names),
        sender_name: first_text(item.names),
        content: content_of(item),
        time_text: first_text(item.times),
        event_time: event_time_of(first_text(item.times), reading),
        image_urls: attributes_of(item.images),
        kind: kind_of(
            joined_text(item.states),
            sender_uin_of(item.names),
            owner_uin,
            item.reprints.len() > 0,
        ),
    }
}

/// Whether the activities are those that the items show, in their order, each seen at its own
/// reading of the clock.
pub open spec fn are_activities(
    activities: Seq<ParsedActivity>,
    items: Seq<ItemModel>,
    owner_uin: Seq<char>,
    readings: Seq<Option<u64>>,
) -> bool {
    &&& activities.len() == items.len()
    &&& readings.len() == items.len()
    &&& forall|i: int| 0 <= i < readings.len() ==> is_clock_reading(#[trigger] readings[i])
    &&& forall|i: int|
        0 <= i < items.len() ==> (#[trigger] activities[i])@ == activity_of(
            items[i],
            owner_uin,
            readings[i],
        )
}

/// Whether the activities are those that the items show, whatever the clock read.
pub open spec fn show_items(
    activities: Seq<ParsedActivity>,
    items: Seq<ItemModel>,
    owner_uin: Seq<char>,
) -> bool {
    exists|readings: Seq<Option<u64>>| are_activities(activities, items, owner_uin, readings)
}

impl<'a> FeedItem<'a> {
    /// Names the elements of one item.
    pub fn from_groups(groups: &'a Vec<Vec<HtmlNode>>) -> (r: FeedItem<'a>)
        requires
            groups@.len() == 6,
        ensures
            r@ == item_of(groups_model(groups@)),
    {
        FeedItem {
            names: &groups[0],
            times: &groups[1],
            contents: &groups[2],
            images: &groups[3],
            states: &groups[4],
            reprints: &groups[5],
        }
    }
}

fn text_of_first(nodes: &Vec<HtmlNode>) -> (r: String)
    ensures
        r@ == first_text(nodes_model(nodes@)),
{
    if nodes.len() > 0 {
        collapse_whitespace(nodes[0].text.as_str())
    } else {
        String::new()
    }
}

fn present_attributes(nodes: &Vec<HtmlNode>) -> (r: Vec<String>)
    ensures
        texts(r@) == attributes_of(nodes_model(nodes@)),
{
    let mut list: Vec<String> = Vec::new();
    let ghost model = nodes_model(nodes@);
    let mut i: usize = 0;
    assert(texts(list@) =~= Seq::empty());
    while i < nodes.len()
        invariant
            i <= nodes@.len(),
            model == nodes_model(nodes@),
            texts(list@) == attributes_of(model.take(i as int)),
        decreases nodes@.len() - i,
    {
        let ghost before = list@;
        assert(model.take(i + 1).drop_last() =~= model.take(i as int));
        assert(model.take(i + 1).last() == nodes@[i as int]@);
        match &nodes[i].attribute {
            Some(attribute) => {
                list.push(attribute.clone());
                assert(texts(list@) =~= texts(before).push(attribute@));
            },
            None => {},
        }
        i = i + 1;
    }
    assert(model.take(i as int) =~= model);
    list
}

fn text_of_all(nodes: &Vec<HtmlNode>) -> (r: String)
    ensures
        r@ == joined_text(nodes_model(nodes@)),
{
    let mut list: Vec<String> = Vec::new();
    let ghost model = nodes_model(nodes@).map_values(|node: NodeModel| collapsed(node.0));
    let mut i: usize = 0;
    while i < nodes.len()
        invariant
            i <= nodes@.len(),
            model == nodes_model(nodes@).map_values(|node: NodeModel| collapsed(node.0)),
            texts(list@) =~= model.take(i as int),
        decreases nodes@.len() - i,
    {
        let ghost before = list@;
        list.push(collapse_whitespace(nodes[i].text.as_str()));
        assert(texts(list@) =~= texts(before).push(collapsed(nodes@[i as int].text@)));
        i = i + 1;
    }
    assert(model.take(i as int) =~= model);
    join(&list, " ")
}

/// The activity that an item shows, seen at a reading of the clock.
pub fn activity_from_item(item: &FeedItem<'_>, owner_uin: &str, reading: Option<u64>) -> (r:
    ParsedActivity)
    ensures
        r@ == activity_of(item@, owner_uin@, reading),
{
    proof {
        reveal_strlit("nameCard_");
        reveal_strlit("\u{a0}");
    }
    let sender_name = text_of_first(item.names);
    let sender_uin = if item.names.len() > 0 {
        match &item.names[0].attribute {
            Some(link) => trim_start_matches(link.as_str(), "nameCard_"),
            None => String::new(),
        }
    } else {
        String::new()
    };
    let time_text = text_of_first(item.times);
    let has_reprint: bool = item.reprints.len() > 0;
    let content = if has_reprint {
        collapse_whitespace(item.reprints[0].text.as_str())
    } else {
        replace(text_of_first(item.contents).as_str(), "\u{a0}", " ")
    };
    let image_urls = present_attributes(item.images);
    let state_text = text_of_all(item.states);
    let kind = classify_activity(
        state_text.as_str(),
        sender_uin.as_str(),
        owner_uin,
        has_reprint,
    );
    let event_time: i64 = match parse_cn_time_at_reading(time_text.as_str(), reading) {
        Some(unix) => unix,
        None => 0,
    };
    ParsedActivity { sender_uin, sender_name, content, time_text, event_time, image_urls, kind }
}

fn total_growth(bytes: &[u8]) -> (r: u128)
    ensures
        r == growth_before(bytes@, bytes@.len() as int),
        r <= 2 * bytes@.len(),
{
    let length: usize = bytes.len();
    let mut growth: u128 = 0;
    let mut i: usize = 0;
    while i < length
        invariant
            length == bytes@.len(),
            i <= length,
            growth <= 2 * i,
            growth == growth_before(bytes@, i as int),
        decreases length - i,
    {
        if bytes[i] == 0 {
            growth = growth + 2;
        } else if length - i >= 5 && bytes[i] == '&' as u8 && bytes[i + 1] == 'n' as u8 && (
        bytes[i + 2] == 'L' as u8 || bytes[i + 2] == 'G' as u8) && bytes[i + 3] == 't' as u8
            && bytes[i + 4] == ';' as u8 {
            growth = growth + 1;
        }
        i = i + 1;
    }
    growth
}

/// Whether [`parse_activities_from_html`] can read a page.
pub fn is_readable_page(processed_html: &str) -> (r: bool)
    ensures
        r == can_be_read(processed_html@),
{
    if trim(processed_html).as_str().is_empty() || !contains(processed_html, "li") {
        return true;
    }
    let bytes = processed_html.as_bytes();
    bytes.len() as u128 + total_growth(bytes) <= PARSER_BUFFER_BYTES as u128
}

proof fn lemma_growth_of_zeros(bytes: Seq<u8>, end: int)
    requires
        0 <= end <= bytes.len(),
    ensures
        growth_before(bytes, end) <= 2 * end,
    decreases end,
{
    if end > 0 {
        lemma_growth_of_zeros(bytes, end - 1);
    }
}

proof fn lemma_growth_of_references(bytes: Seq<u8>, end: int)
    requires
        0 <= end <= bytes.len(),
        !bytes.contains(0),
    ensures
        5 * growth_before(bytes, end) <= end + 4,
        5 * growth_before(bytes, end) <= bytes.len(),
        !bytes.contains('&' as u8) ==> growth_before(bytes, end) == 0,
    decreases end,
{
    if end > 0 {
        assert(bytes.contains(bytes[end - 1]));
        lemma_growth_of_references(bytes, end - 1);
        if growing_reference_at(bytes, end - 1) {
            let before = if end >= 5 {
                end - 5
            } else {
                0
            };
            lemma_growth_of_references(bytes, before);
            lemma_no_reference_within(bytes, before, end - 1);
        }
    }
}

proof fn lemma_no_reference_within(bytes: Seq<u8>, from: int, end: int)
    requires
        0 <= from <= end < bytes.len(),
        end - from <= 4,
        !bytes.contains(0),
        growing_reference_at(bytes, end),
    ensures
        growth_before(bytes, end) == growth_before(bytes, from),
{
    reveal_with_fuel(growth_before, 6);
    assert forall|i: int| from <= i < end implies growth_at(bytes, i) == 0 by {
        assert(bytes.contains(bytes[i]));
    }
    if end - from >= 1 {
        assert(growth_at(bytes, end - 1) == 0);
    }
    if end - from >= 2 {
        assert(growth_at(bytes, end - 2) == 0);
    }
    if end - from >= 3 {
        assert(growth_at(bytes, end - 3) == 0);
    }
    if end - from >= 4 {
        assert(growth_at(bytes, end - 4) == 0);
    }
}

/// Every page of at most a third of a buffer can be read; without zero bytes, every page of at
/// most five sixths of one; and without character references as well, every page of at most a
/// whole one.
pub proof fn law_short_pages_can_be_read(html: Seq<char>)
    ensures
        ({
            let bytes = encode_utf8(html);
            &&& 3 * bytes.len() <= PARSER_BUFFER_BYTES ==> can_be_read(html)
            &&& !bytes.contains(0) && 6 * bytes.len() <= 5 * PARSER_BUFFER_BYTES ==> can_be_read(
                html,
            )
            &&& !bytes.contains(0) && !bytes.contains('&' as u8) && bytes.len()
                <= PARSER_BUFFER_BYTES ==> can_be_read(html)
        }),
{
    let bytes = encode_utf8(html);
    lemma_growth_of_zeros(bytes, bytes.len() as int);
    if !bytes.contains(0) {
        lemma_growth_of_references(bytes, bytes.len() as int);
    }
}

/// The activities on a page of `owner_uin`.
pub fn parse_activities_from_html(processed_html: &str, owner_uin: &str) -> (r: Result<
    Vec<ParsedActivity>,
    String,
>)
    requires
        can_be_read(processed_html@),
    ensures
        r is Ok,
        page_items(processed_html@) is Ok,
        show_items(r->Ok_0@, page_items(processed_html@)->Ok_0, owner_uin@),
        !may_hold_items(processed_html@) ==> r->Ok_0@.len() == 0,
{
    let mut activities: Vec<ParsedActivity> = Vec::new();
    let ghost mut readings: Seq<Option<u64>> = Seq::empty();
    if trim(processed_html).as_str().is_empty() || !contains(processed_html, "li") {
        assert(are_activities(
            activities@,
            page_items(processed_html@)->Ok_0,
            owner_uin@,
            readings,
        ));
        return Ok(activities);
    }
    let mut queries: Vec<(&'static str, &'static str)> = Vec::new();
    queries.push((NAME_SELECTOR, "link"));
    queries.push((TIME_SELECTOR, ""));
    queries.push((CONTENT_SELECTOR, ""));
    queries.push((IMAGE_SELECTOR, "src"));
    queries.push((STATE_SELECTOR, ""));
    queries.push((REPRINT_SELECTOR, ""));
    assert(queries_model(queries@) =~= item_queries());
    let found = match select_nested(processed_html, ITEM_SELECTOR, &queries) {
        Ok(found) => found,
        Err(error) => {
            return Err(error);
        },
    };
    let ghost items = page_items(processed_html@)->Ok_0;
    assert(page_items(processed_html@) is Ok);
    let mut i: usize = 0;
    while i < found.len()
        invariant
            i <= found@.len(),
            items.len() == found@.len(),
            forall|k: int| 0 <= k < found@.len() ==> (#[trigger] found@[k])@.len() == 6,
            forall|k: int|
                0 <= k < found@.len() ==> #[trigger] items[k] == item_of(
                    groups_model(found@[k]@),
                ),
            activities@.len() == i,
            readings.len() == i,
            forall|k: int| 0 <= k < i ==> is_clock_reading(#[trigger] readings[k]),
            forall|k: int|
                0 <= k < i ==> (#[trigger] activities@[k])@ == activity_of(
                    items[k],
                    owner_uin@,
                    readings[k],
                ),
        decreases found@.len() - i,
    {
        let item = FeedItem::from_groups(&found[i]);
        let reading = read_clock();
        activities.push(activity_from_item(&item, owner_uin, reading));
        proof {
            readings = readings.push(reading);
        }
        i = i + 1;
    }
    assert(are_activities(activities@, items, owner_uin@, readings));
    Ok(activities)
}

/// The name, the content and the time of an activity are collapsed text.
pub proof fn law_activity_text_is_collapsed(
    item: ItemModel,
    owner_uin: Seq<char>,
    reading: Option<u64>,
)
    ensures
        is_collapsed(activity_of(item, owner_uin, reading).sender_name),
        is_collapsed(activity_of(item, owner_uin, reading).content),
        is_collapsed(activity_of(item, owner_uin, reading).time_text),
{
    reveal_strlit("\u{a0}");
    lemma_first_text_is_collapsed(item.names);
    lemma_first_text_is_collapsed(item.contents);
    lemma_first_text_is_collapsed(item.times);
    if item.reprints.len() > 0 {
        law_collapsed_text(item.reprints[0].0);
    } else {
        let own = first_text(item.contents);
        assert(!mentions(own, "\u{a0}"@)) by {
            if mentions(own, "\u{a0}"@) {
                let at = choose|at: int| occurs_at(own, "\u{a0}"@, at);
                assert(own.subrange(at, at + 1)[0] == own[at]);
                assert(is_white_space(own[at]));
            }
        }
        law_replacing_nothing(own, "\u{a0}"@, " "@);
    }
}

proof fn lemma_first_text_is_collapsed(nodes: Seq<NodeModel>)
    ensures
        is_collapsed(first_text(nodes)),
{
    if nodes.len() > 0 {
        law_collapsed_text(nodes[0].0);
    }
}

/// No item is dropped: there is one activity for every item, in order, and the time of each is
/// the one that its own time text writes at a reading of the clock, or zero where it writes none.
pub proof fn law_every_item_is_kept(
    activities: Seq<ParsedActivity>,
    items: Seq<ItemModel>,
    owner_uin: Seq<char>,
)
    requires
        show_items(activities, items, owner_uin),
    ensures
        activities.len() == items.len(),
        forall|i: int|
            0 <= i < items.len() ==> (#[trigger] activities[i])@.time_text == first_text(
                items[i].times,
            ),
        forall|i: int|
            0 <= i < items.len() ==> is_time_of_text(
                (#[trigger] activities[i])@.event_time,
                activities[i]@.time_text,
            ),
{
    let readings = choose|readings: Seq<Option<u64>>|
        are_activities(activities, items, owner_uin, readings);
    assert forall|i: int| 0 <= i < items.len() implies is_time_of_text(
        (#[trigger] activities[i])@.event_time,
        activities[i]@.time_text,
    ) by {
        assert(is_clock_reading(readings[i]));
    }
}

/// The account of a sender does not start with the name card's prefix.
pub proof fn law_sender_uin_is_bare(names: Seq<NodeModel>)
    ensures
        !"nameCard_"@.is_prefix_of(sender_uin_of(names)),
{
    reveal_strlit("nameCard_");
    if names.len() > 0 && names[0].1 is Some {
        law_prefixes_are_gone(names[0].1.unwrap(), "nameCard_"@);
    }
}

/// A page that is blank or cannot hold an item has none, and is no error.
pub proof fn law_blank_page_has_no_items(html: Seq<char>)
    requires
        !may_hold_items(html),
    ensures
        page_items(html) == Ok::<Seq<ItemModel>, Seq<char>>(Seq::empty()),
{
}

/// Elements and items are viewed field by field.
pub proof fn law_view_of_items(node: HtmlNode, item: FeedItem<'_>, nodes: Seq<HtmlNode>, i: int)
    ensures
        node@.0 == node.text@,
        node.attribute is None ==> node@.1 is None,
        node.attribute matches Some(attribute) ==> node@.1 == Some(attribute@),
        nodes_model(nodes).len() == nodes.len(),
        0 <= i < nodes.len() ==> nodes_model(nodes)[i] == nodes[i]@,
        item@.names == nodes_model(item.names@),
        item@.times == nodes_model(item.times@),
        item@.contents == nodes_model(item.contents@),
        item@.images == nodes_model(item.images@),
        item@.states == nodes_model(item.states@),
        item@.reprints == nodes_model(item.reprints@),
{
}

/// A page is parsed exactly if it has an `li` in it.
pub proof fn law_pages_with_items_are_parsed(html: Seq<char>)
    ensures
        may_hold_items(html) <==> mentions(html, "li"@),
{
    reveal_strlit("li");
    if mentions(html, "li"@) {
        let at = choose|at: int| occurs_at(html, "li"@, at);
        assert(html.subrange(at, at + 2)[0] == html[at]);
        assert(!is_white_space(html[at]));
        if trimmed(html).len() == 0 {
            law_trimmed_text_stands_within(html);
            let (before, after) = choose|before: Seq<char>, after: Seq<char>|
                is_blank(before) && is_blank(after) && html == #[trigger] (before + trimmed(html)
                    + after);
            if at < before.len() {
                assert(is_white_space(before[at]));
            } else {
                assert(is_white_space(after[at - before.len()]));
            }
        }
    }
}

/// What is taken for an item, its name, its time, its text, its pictures, its state and its
/// reprint: the elements that these selectors find, with the attributes `link` and `src`.
pub proof fn law_items_are_found_by_selector(html: Seq<char>)
    requires
        mentions(html, "li"@),
    ensures
        ({
            let queries = seq![
                ("a.f-name.q_namecard"@, "link"@),
                ("div.info-detail"@, ""@),
                ("p.txt-box-title.ellipsis-one"@, ""@),
                ("a.img-item img"@, "src"@),
                ("span.state"@, ""@),
                ("div.f-reprint div.f-info"@, ""@),
            ];
            match nested_elements(html, "li.f-single.f-s-s"@, queries) {
                Ok(found) => page_items(html) matches Ok(items) && {
                    &&& items.len() == found.len()
                    &&& forall|i: int|
                        0 <= i < found.len() ==> {
                            &&& (#[trigger] items[i]).names == found[i][0]
                            &&& items[i].times == found[i][1]
                            &&& items[i].contents == found[i][2]
                            &&& items[i].images == found[i][3]
                            &&& items[i].states == found[i][4]
                            &&& items[i].reprints == found[i][5]
                        }
                },
                Err(error) => page_items(html) == Err::<Seq<ItemModel>, Seq<char>>(error),
            }
        }),
{
    law_pages_with_items_are_parsed(html);
}

/// The sender of an activity is the first name on its item, and the account behind the name
/// cards' prefix in that name's link; an item without a name has neither.
pub proof fn law_sender_of_item(
    item: ItemModel,
    owner_uin: Seq<char>,
    reading: Option<u64>,
    account: Seq<char>,
)
    requires
        !"nameCard_"@.is_prefix_of(account),
    ensures
        ({
            let activity = activity_of(item, owner_uin, reading);
            &&& item.names.len() == 0 ==> activity.sender_name.len() == 0
                && activity.sender_uin.len() == 0
            &&& item.names.len() > 0 ==> {
                &&& activity.sender_name == collapsed(item.names[0].0)
                &&& item.names[0].1 is None ==> activity.sender_uin.len() == 0
                &&& item.names[0].1 == Some("nameCard_"@ + account) ==> activity.sender_uin
                    == account
                &&& item.names[0].1 == Some("nameCard_"@ + ("nameCard_"@ + account))
                    ==> activity.sender_uin == account
                &&& item.names[0].1 == Some(account) ==> activity.sender_uin == account
            }
        }),
{
    reveal_strlit("nameCard_");
    law_prefix_makes_no_difference(account, "nameCard_"@);
    law_prefix_makes_no_difference("nameCard_"@ + account, "nameCard_"@);
}

/// The content of an activity is the collapsed text of the first reprint on its item, and of the
/// first text of its own where it reprints nothing; its time text is the first time's.
pub proof fn law_text_of_item(item: ItemModel, owner_uin: Seq<char>, reading: Option<u64>)
    ensures
        ({
            let activity = activity_of(item, owner_uin, reading);
            &&& item.reprints.len() > 0 ==> activity.content == collapsed(item.reprints[0].0)
            &&& item.reprints.len() == 0 && item.contents.len() > 0 ==> activity.content
                == collapsed(item.contents[0].0)
            &&& item.reprints.len() == 0 && item.contents.len() == 0 ==> activity.content.len() == 0
            &&& item.times.len() > 0 ==> activity.time_text == collapsed(item.times[0].0)
            &&& item.times.len() == 0 ==> activity.time_text.len() == 0
        }),
{
    reveal_strlit("\u{a0}");
    if item.reprints.len() == 0 {
        lemma_first_text_is_collapsed(item.contents);
        let own = first_text(item.contents);
        assert(!mentions(own, "\u{a0}"@)) by {
            if mentions(own, "\u{a0}"@) {
                let at = choose|at: int| occurs_at(own, "\u{a0}"@, at);
                assert(own.subrange(at, at + 1)[0] == own[at]);
                assert(is_white_space(own[at]));
            }
        }
        law_replacing_nothing(own, "\u{a0}"@, " "@);
    }
}

/// The time of an activity is what its time text writes at the reading of the clock, and zero
/// where it writes none.
pub proof fn law_time_of_item(item: ItemModel, owner_uin: Seq<char>, reading: Option<u64>)
    ensures
        ({
            let activity = activity_of(item, owner_uin, reading);
            &&& time_at_reading(activity.time_text, reading) matches Some(unix)
                ==> activity.event_time == unix
            &&& time_at_reading(activity.time_text, reading) is None ==> activity.event_time == 0
        }),
{
}

/// The addresses of an activity's pictures are those of its item's images that have one, in
/// order: the addresses of two lists of images are those of the first and those of the second.
pub proof fn law_pictures_of_item(first: Seq<NodeModel>, second: Seq<NodeModel>, node: NodeModel)
    ensures
        attributes_of(Seq::empty()) == Seq::<Seq<char>>::empty(),
        node.1 is None ==> attributes_of(seq![node]) == Seq::<Seq<char>>::empty(),
        node.1 matches Some(address) ==> attributes_of(seq![node]) == seq![address],
        attributes_of(first + second) == attributes_of(first) + attributes_of(second),
        forall|item: ItemModel, owner_uin: Seq<char>, reading: Option<u64>|
            (#[trigger] activity_of(item, owner_uin, reading)).image_urls == attributes_of(
                item.images,
            ),
    decreases second.len(),
{
    let none = Seq::<NodeModel>::empty();
    assert(attributes_of(none) =~= Seq::empty());
    assert(seq![node].drop_last() =~= none);
    assert(attributes_of(seq![node]) =~= match node.1 {
        Some(address) => seq![address],
        None => Seq::empty(),
    }) by {
        reveal_with_fuel(attributes_of, 2);
    }
    if second.len() == 0 {
        assert(first + second =~= first);
        assert(attributes_of(first) + attributes_of(second) =~= attributes_of(first));
    } else {
        law_pictures_of_item(first, second.drop_last(), node);
        assert((first + second).drop_last() =~= first + second.drop_last());
        assert((first + second).last() == second.last());
        assert(attributes_of(first + second) =~= attributes_of(first) + attributes_of(second));
    }
}

/// The kind of an activity is the one for the states on its item, one after the other with a
/// space between, for the sender that the activity names, and for whether the item reprints.
pub proof fn law_kind_of_item(
    item: ItemModel,
    owner_uin: Seq<char>,
    reading: Option<u64>,
    first: Seq<NodeModel>,
    second: Seq<NodeModel>,
    node: NodeModel,
)
    ensures
        ({
            let activity = activity_of(item, owner_uin, reading);
            activity.kind == kind_of(
                joined_text(item.states),
                activity.sender_uin,
                owner_uin,
                item.reprints.len() > 0,
            )
        }),
        joined_text(Seq::empty()).len() == 0,
        joined_text(seq![node]) == collapsed(node.0),
        first.len() > 0 && second.len() > 0 ==> joined_text(first + second) == joined_text(first)
            + seq![' '] + joined_text(second),
{
    reveal_strlit(" ");
    assert(" "@ =~= seq![' ']);
    let text = |node: NodeModel| collapsed(node.0);
    law_joining_lists(first.map_values(text), second.map_values(text), " "@);
    assert((first + second).map_values(text) =~= first.map_values(text) + second.map_values(text));
    assert(seq![node].map_values(text) =~= seq![collapsed(node.0)]);
    assert(Seq::<NodeModel>::empty().map_values(text) =~= Seq::empty());
}

} // verus!
