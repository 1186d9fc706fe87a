//! From the body of a feed response to the HTML of its items.

use vstd::prelude::*;

use crate::collapse::{
    collapse_whitespace, collapsed, is_collapsed, law_collapsed_text, law_collapsing_adds_nothing,
};
use crate::patterns::{
    hex_escape_char, hex_unescaped, is_hex, law_hex_escapes_are_decoded,
    law_other_backslashes_are_kept, law_text_before_escapes_is_kept, replace_hex_escapes,
    starts_with_hex_escape,
};
use crate::text::{
    characters, contains, find, find_from, joined, law_find_is_first, law_first_part_is_found,
    law_joining_lists, law_replacing_behind_kept_text, law_replacing_goes_left_to_right,
    law_replacing_nothing, mentions, occurs_at, position_from, replace, replaced, replaced_from,
    string_of,
};

verus! {

/// A page that the firewall blocked names this host.
pub const WAF_HOST: &'static str = "waf.tencent.com";

/// A body that says this has further pages behind it.
pub const MORE_FEEDS: &'static str = "hasMoreFeeds:true";

/// What stands before the HTML of one feed.
pub const HTML_START: &'static str = "html:'";

/// What may stand behind the HTML of one feed.
pub const HTML_END_PAV: &'static str = "',is_public_pav";

/// What may stand behind the HTML of one feed.
pub const HTML_END_OPUIN: &'static str = "',opuin";

/// The text with its escapes undone: first `\xHH`, then `\/`, `\'` and `\"`.
pub open spec fn unescaped(message: Seq<char>) -> Seq<char> {
    let decoded = hex_unescaped(message);
    let slashes = replaced(decoded, "\\/"@, "/"@);
    let quotes = replaced(slashes, "\\'"@, "'"@);
    replaced(quotes, "\\\""@, "\""@)
}

/// What stands between the first `start` and the first `end` behind it.
pub open spec fn between(source: Seq<char>, start: Seq<char>, end: Seq<char>) -> Option<Seq<char>> {
    match find(source, start) {
        None => None,
        Some(at) => {
            let rest = source.skip(at + start.len());
            match find(rest, end) {
                None => None,
                Some(length) => Some(rest.take(length)),
            }
        },
    }
}

/// The smaller of two places, where there is one.
pub open spec fn earlier(a: Option<int>, b: Option<int>) -> Option<int> {
    match (a, b) {
        (Some(x), Some(y)) => Some(if x <= y {
            x
        } else {
            y
        }),
        (Some(x), None) => Some(x),
        (None, y) => y,
    }
}

/// Where the HTML of a feed ends: at the nearer of the two end marks.
pub open spec fn html_end(rest: Seq<char>) -> Option<int> {
    earlier(find(rest, HTML_END_PAV@), find(rest, HTML_END_OPUIN@))
}

/// The HTML of every feed in the message, in order; nothing if one of them has no end mark.
/// The search goes on behind the quote that ends a feed's HTML.
pub open spec fn html_parts(message: Seq<char>) -> Option<Seq<Seq<char>>>
    decreases message.len(),
{
    match find(message, HTML_START@) {
        None => Some(Seq::empty()),
        Some(at) => {
            let rest = message.skip(at + HTML_START@.len());
            match html_end(rest) {
                None => None,
                Some(end) => {
                    proof {
                        lemma_html_parts_shrink(message, at, end);
                    }
                    match html_parts(rest.skip(end + 1)) {
                        None => None,
                        Some(others) => Some(seq![rest.take(end)] + others),
                    }
                },
            }
        },
    }
}

/// What is left to search behind a feed is shorter than the message.
pub proof fn lemma_html_parts_shrink(message: Seq<char>, at: int, end: int)
    requires
        find(message, HTML_START@) == Some(at),
        html_end(message.skip(at + HTML_START@.len())) == Some(end),
    ensures
        0 <= at,
        HTML_START@.len() == 6,
        at + 6 + end + 1 <= message.len(),
        0 <= end,
        message.skip(at + 6).skip(end + 1).len() < message.len(),
{
    reveal_strlit("html:'");
    reveal_strlit("',is_public_pav");
    reveal_strlit("',opuin");
    law_find_is_first(message, HTML_START@, 0);
    let rest = message.skip(at + HTML_START@.len());
    law_find_is_first(rest, HTML_END_PAV@, 0);
    law_find_is_first(rest, HTML_END_OPUIN@, 0);
}

/// The HTML of all feeds in the message, run together; nothing if there is none, or if one of
/// them has no end mark.
pub open spec fn h5_html(message: Seq<char>) -> Option<Seq<char>> {
    match html_parts(message) {
        Some(parts) if parts.len() > 0 => Some(joined(parts, Seq::empty())),
        _ => None,
    }
}

/// The first of three quotings in which the message holds a feed's HTML, or the whole message.
pub open spec fn old_html(text: Seq<char>) -> Seq<char> {
    match between(text, "html:'"@, "',opuin"@) {
        Some(html) => html,
        None => match between(text, "html:\""@, "\",opuin"@) {
            Some(html) => html,
            None => match between(text, "\"html\":\""@, "\",\"opuin"@) {
                Some(html) => html,
                None => text,
            },
        },
    }
}

/// The HTML that an old-style message holds: unescaped, cut out, freed of backslashes and
/// collapsed.
pub open spec fn old_processed(message: Seq<char>) -> Seq<char> {
    collapsed(replaced(old_html(unescaped(message)), "\\"@, Seq::empty()))
}

/// The HTML that a response body holds.
pub open spec fn processed(body: Seq<char>) -> Seq<char> {
    let message = unescaped(body);
    if mentions(body, WAF_HOST@) {
        Seq::empty()
    } else if (mentions(message, "_Callback("@) || mentions(message, "data:["@)) && h5_html(
        message,
    ) is Some {
        collapsed(h5_html(message).unwrap())
    } else {
        old_processed(message)
    }
}

proof fn lemma_find_in_suffix(text: Seq<char>, part: Seq<char>, start: int, from: int)
    requires
        0 <= start <= text.len(),
        0 <= from,
    ensures
        match find_from(text.skip(start), part, from) {
            Some(at) => find_from(text, part, start + from) == Some(start + at),
            None => find_from(text, part, start + from) is None,
        },
    decreases text.len() + 1 - start - from,
{
    if start + from + part.len() <= text.len() {
        assert(text.skip(start).subrange(from, from + part.len()) =~= text.subrange(
            start + from,
            start + from + part.len(),
        ));
        if !occurs_at(text, part, start + from) {
            lemma_find_in_suffix(text, part, start, from + 1);
        }
    }
}

/// Undoes the escapes of a feed response.
pub fn unescape_feed_text(message: &str) -> (r: String)
    ensures
        r@ == unescaped(message@),
{
    proof {
        reveal_strlit("\\/");
        reveal_strlit("\\'");
        reveal_strlit("\\\"");
    }
    let decoded = replace_hex_escapes(message);
    let slashes = replace(decoded.as_str(), "\\/", "/");
    let quotes = replace(slashes.as_str(), "\\'", "'");
    replace(quotes.as_str(), "\\\"", "\"")
}

/// What stands between the first `start` and the first `end` behind it.
pub fn extract_between(source: &str, start: &str, end: &str) -> (r: Option<String>)
    ensures
        match r {
            Some(text) => between(source@, start@, end@) == Some(text@),
            None => between(source@, start@, end@) is None,
        },
{
    let list = characters(source);
    let opening = characters(start);
    let closing = characters(end);
    match position_from(&list, &opening, 0) {
        None => None,
        Some(at) => {
            let length: usize = list.len();
            assert(at + start@.len() <= length);
            let from: usize = at + opening.len();
            proof {
                lemma_find_in_suffix(source@, end@, from as int, 0);
            }
            match position_from(&list, &closing, from) {
                None => None,
                Some(until) => {
                    assert(source@.skip(from as int).take(until - from) =~= source@.subrange(
                        from as int,
                        until as int,
                    ));
                    Some(string_of(&list, from, until))
                },
            }
        },
    }
}

/// Where the HTML of the feed that starts at `start` ends, counted in the whole message.
spec fn end_from(message: Seq<char>, start: int) -> Option<int> {
    earlier(
        find_from(message, HTML_END_PAV@, start),
        find_from(message, HTML_END_OPUIN@, start),
    )
}

proof fn lemma_no_feed_left(message: Seq<char>, from: int)
    requires
        0 <= from <= message.len(),
        find_from(message, HTML_START@, from) is None,
    ensures
        html_parts(message.skip(from)) == Some(Seq::<Seq<char>>::empty()),
{
    lemma_find_in_suffix(message, HTML_START@, from, 0);
}

proof fn lemma_next_feed(message: Seq<char>, from: int, at: int)
    requires
        0 <= from <= message.len(),
        find_from(message, HTML_START@, from) == Some(at),
    ensures
        HTML_START@.len() == 6,
        from <= at,
        at + 6 <= message.len(),
        end_from(message, at + 6) is None ==> html_parts(message.skip(from)) is None,
        end_from(message, at + 6) matches Some(end) ==> {
            &&& at + 6 <= end < message.len()
            &&& html_parts(message.skip(from)) == match html_parts(message.skip(end + 1)) {
                Some(others) => Some(seq![message.subrange(at + 6, end)] + others),
                None => None,
            }
        },
{
    reveal_strlit("html:'");
    let suffix = message.skip(from);
    let start = at + 6;
    lemma_find_in_suffix(message, HTML_START@, from, 0);
    law_find_is_first(message, HTML_START@, from);
    lemma_find_in_suffix(message, HTML_END_PAV@, start, 0);
    lemma_find_in_suffix(message, HTML_END_OPUIN@, start, 0);
    assert(suffix.skip(at - from + 6) =~= message.skip(start));
    match end_from(message, start) {
        Some(end) => {
            lemma_html_parts_shrink(suffix, at - from, end - start);
            assert(message.skip(start).take(end - start) =~= message.subrange(start, end));
            assert(message.skip(start).skip(end - start + 1) =~= message.skip(end + 1));
        },
        None => {},
    }
}

/// The HTML of all feeds in a message, run together.
pub fn extract_h5_feeds_html(message: &str) -> (r: Option<String>)
    ensures
        match r {
            Some(text) => h5_html(message@) == Some(text@),
            None => h5_html(message@) is None,
        },
{
    let list = characters(message);
    let length: usize = list.len();
    let opening = characters(HTML_START);
    let pav = characters(HTML_END_PAV);
    let opuin = characters(HTML_END_OPUIN);
    let mut html = String::new();
    let mut found: bool = false;
    let ghost mut parts: Seq<Seq<char>> = Seq::empty();
    let mut search_from: usize = 0;
    assert(message@.skip(0) =~= message@);
    assert(html_parts(message@) matches Some(others) ==> parts + others =~= others);
    loop
        invariant
            list@ == message@,
            length == list@.len(),
            opening@ == HTML_START@,
            pav@ == HTML_END_PAV@,
            opuin@ == HTML_END_OPUIN@,
            search_from <= list@.len(),
            html@ == joined(parts, Seq::empty()),
            found == (parts.len() > 0),
            html_parts(message@) == match html_parts(message@.skip(search_from as int)) {
                Some(others) => Some(parts + others),
                None => None,
            },
        decreases list@.len() - search_from,
    {
        let at: usize = match position_from(&list, &opening, search_from) {
            Some(at) => at,
            None => {
                proof {
                    lemma_no_feed_left(message@, search_from as int);
                    assert(parts + Seq::empty() =~= parts);
                }
                return if found {
                    Some(html)
                } else {
                    None
                };
            },
        };
        proof {
            lemma_next_feed(message@, search_from as int, at as int);
        }
        let start: usize = at + opening.len();
        let end: usize = match (
            position_from(&list, &pav, start),
            position_from(&list, &opuin, start),
        ) {
            (Some(x), Some(y)) => if x <= y {
                x
            } else {
                y
            },
            (Some(x), None) => x,
            (None, Some(y)) => y,
            (None, None) => {
                return None;
            },
        };
        let part = string_of(&list, start, end);
        proof {
            lemma_join_push(parts, part@);
            match html_parts(message@.skip(end + 1)) {
                Some(others) => {
                    assert(parts.push(part@) + others =~= parts + (seq![part@] + others));
                },
                None => {},
            }
            parts = parts.push(part@);
        }
        html.append(part.as_str());
        found = true;
        search_from = end + 1;
    }
}

proof fn lemma_join_push(parts: Seq<Seq<char>>, part: Seq<char>)
    ensures
        joined(parts.push(part), Seq::empty()) == joined(parts, Seq::empty()) + part,
{
    assert(parts.push(part).drop_last() =~= parts);
    assert(joined(parts, Seq::empty()) + Seq::empty() + part =~= joined(parts, Seq::empty())
        + part);
    if parts.len() == 0 {
        assert(joined(parts, Seq::empty()) + part =~= part);
    }
}

/// The HTML that an old-style message holds.
pub fn process_old_html(message: &str) -> (r: String)
    ensures
        r@ == old_processed(message@),
{
    proof {
        reveal_strlit("\\");
        reveal_strlit("");
    }
    let text = unescape_feed_text(message);
    let html = match extract_between(text.as_str(), "html:'", "',opuin") {
        Some(html) => html,
        None => match extract_between(text.as_str(), "html:\"", "\",opuin") {
            Some(html) => html,
            None => match extract_between(text.as_str(), "\"html\":\"", "\",\"opuin") {
                Some(html) => html,
                None => text,
            },
        },
    };
    let bare = replace(html.as_str(), "\\", "");
    assert(""@ =~= Seq::<char>::empty());
    collapse_whitespace(bare.as_str())
}

/// The HTML that a response body holds; empty for a page of the firewall.
pub fn process_feed_response(message: &str) -> (r: String)
    ensures
        r@ == processed(message@),
{
    if contains(message, WAF_HOST) {
        return String::new();
    }
    let text = unescape_feed_text(message);
    if contains(text.as_str(), "_Callback(") || contains(text.as_str(), "data:[") {
        if let Some(extracted) = extract_h5_feeds_html(text.as_str()) {
            return collapse_whitespace(extracted.as_str());
        }
    }
    process_old_html(text.as_str())
}

/// Whether the body says that there are further pages.
pub fn has_more_feeds(message: &str) -> (r: bool)
    ensures
        r == mentions(message@, MORE_FEEDS@),
{
    contains(message, MORE_FEEDS)
}

proof fn lemma_hex_unescaped_keeps(text: Seq<char>)
    requires
        !text.contains('\\'),
    ensures
        hex_unescaped(text) == text,
    decreases text.len(),
{
    if text.len() > 0 {
        assert(text[0] != '\\');
        assert(!text.skip(1).contains('\\')) by {
            if text.skip(1).contains('\\') {
                let k = choose|k: int| 0 <= k < text.skip(1).len() && text.skip(1)[k] == '\\';
                assert(text[k + 1] == '\\');
            }
        }
        lemma_hex_unescaped_keeps(text.skip(1));
        assert(seq![text[0]] + text.skip(1) =~= text);
    }
}

proof fn lemma_part_needs_char(text: Seq<char>, part: Seq<char>)
    requires
        part.len() > 0,
        !text.contains(part[0]),
    ensures
        !mentions(text, part),
{
    if mentions(text, part) {
        let at = choose|at: int| occurs_at(text, part, at);
        assert(text.subrange(at, at + part.len())[0] == text[at]);
    }
}

/// Text without a backslash holds no escape and is kept as it is.
pub proof fn law_unescaping_plain_text(message: Seq<char>)
    requires
        !message.contains('\\'),
    ensures
        unescaped(message) == message,
{
    reveal_strlit("\\/");
    reveal_strlit("\\'");
    reveal_strlit("\\\"");
    lemma_hex_unescaped_keeps(message);
    lemma_part_needs_char(message, "\\/"@);
    lemma_part_needs_char(message, "\\'"@);
    lemma_part_needs_char(message, "\\\""@);
    law_replacing_nothing(message, "\\/"@, "/"@);
    law_replacing_nothing(message, "\\'"@, "'"@);
    law_replacing_nothing(message, "\\\""@, "\""@);
}

proof fn lemma_removed(text: Seq<char>, from: int)
    requires
        0 <= from,
    ensures
        !replaced_from(text, "\\"@, Seq::empty(), from).contains('\\'),
    decreases text.len() - from,
{
    reveal_strlit("\\");
    if from < text.len() {
        lemma_removed(text, from + 1);
        let rest = replaced_from(text, "\\"@, Seq::empty(), from + 1);
        if occurs_at(text, "\\"@, from) {
            assert(Seq::<char>::empty() + rest =~= rest);
        } else {
            assert(text[from] != '\\') by {
                if text[from] == '\\' {
                    assert(text.subrange(from, from + 1) =~= "\\"@);
                }
            }
            let whole = seq![text[from]] + rest;
            if whole.contains('\\') {
                let k = choose|k: int| 0 <= k < whole.len() && whole[k] == '\\';
                assert(k > 0 && rest[k - 1] == '\\');
            }
        }
    }
}

/// The HTML of an old-style message holds no backslash.
pub proof fn law_old_html_has_no_backslash(message: Seq<char>)
    ensures
        !old_processed(message).contains('\\'),
{
    let bare = replaced(old_html(unescaped(message)), "\\"@, Seq::empty());
    lemma_removed(old_html(unescaped(message)), 0);
    law_collapsing_adds_nothing(bare);
    if old_processed(message).contains('\\') {
        let k = choose|k: int|
            0 <= k < old_processed(message).len() && old_processed(message)[k] == '\\';
        assert(bare.contains(collapsed(bare)[k]));
    }
}

/// The HTML of a response is collapsed text.
pub proof fn law_processed_text_is_collapsed(body: Seq<char>)
    ensures
        is_collapsed(processed(body)),
{
    let message = unescaped(body);
    law_collapsed_text(replaced(old_html(unescaped(message)), "\\"@, Seq::empty()));
    if h5_html(message) is Some {
        law_collapsed_text(h5_html(message).unwrap());
    }
}

/// Nothing is made of a page of the firewall.
pub proof fn law_blocked_page_is_empty(body: Seq<char>)
    requires
        mentions(body, WAF_HOST@),
    ensures
        processed(body) == Seq::<char>::empty(),
{
}

/// What is cut out stands between the two marks, and the end mark does not stand in it.
pub proof fn law_cut_stands_between(source: Seq<char>, start: Seq<char>, end: Seq<char>)
    ensures
        between(source, start, end) matches Some(text) ==> {
            &&& mentions(source, start + text + end)
            &&& end.len() > 0 ==> !mentions(text, end)
        },
{
    if let Some(text) = between(source, start, end) {
        law_find_is_first(source, start, 0);
        let at = find(source, start).unwrap();
        let rest = source.skip(at + start.len());
        law_find_is_first(rest, end, 0);
        let length = find(rest, end).unwrap();
        let whole = start + text + end;
        assert(source.subrange(at, at + start.len()) == start);
        assert(rest.subrange(length, length + end.len()) == end);
        assert(source.subrange(at, at + whole.len()) =~= whole) by {
            assert forall|i: int| 0 <= i < whole.len() implies source.subrange(
                at,
                at + whole.len(),
            )[i] == whole[i] by {
                if i < start.len() {
                    assert(source.subrange(at, at + start.len())[i] == source[at + i]);
                } else if i < start.len() + text.len() {
                    assert(text[i - start.len()] == rest[i - start.len()]);
                } else {
                    let k = i - start.len() - text.len();
                    assert(rest.subrange(length, length + end.len())[k] == rest[length + k]);
                }
            }
        }
        assert(occurs_at(source, whole, at));
        if mentions(text, end) && end.len() > 0 {
            let i = choose|i: int| occurs_at(text, end, i);
            assert(rest.subrange(i, i + end.len()) =~= text.subrange(i, i + end.len()));
            assert(occurs_at(rest, end, i));
        }
    }
}

/// Text put between two marks is cut out again, provided that the start mark does not occur
/// before its place, and the end mark does not start before its own.
pub proof fn law_cut_reads_back(
    before: Seq<char>,
    start: Seq<char>,
    text: Seq<char>,
    end: Seq<char>,
    after: Seq<char>,
)
    requires
        forall|i: int|
            0 <= i < before.len() ==> !#[trigger] occurs_at(
                before + start + text + end + after,
                start,
                i,
            ),
        forall|i: int|
            0 <= i < text.len() ==> !#[trigger] occurs_at(text + end + after, end, i),
    ensures
        between(before + start + text + end + after, start, end) == Some(text),
{
    let source = before + start + text + end + after;
    let at = before.len() as int;
    assert(source.subrange(at, at + start.len()) =~= start);
    lemma_found_at(source, start, at);
    let rest = text + end + after;
    assert(source.skip(at + start.len()) =~= rest);
    assert(rest.subrange(text.len() as int, (text.len() + end.len()) as int) =~= end);
    lemma_found_at(rest, end, text.len() as int);
    assert(rest.take(text.len() as int) =~= text);
}

proof fn lemma_found_at(text: Seq<char>, part: Seq<char>, at: int)
    requires
        occurs_at(text, part, at),
        forall|i: int| 0 <= i < at ==> !#[trigger] occurs_at(text, part, i),
    ensures
        find(text, part) == Some(at),
{
    law_find_is_first(text, part, 0);
}

/// The feeds of a message are taken in turn: the HTML of the first is the text between its start
/// mark and the nearest end mark, and those behind it are the feeds of what follows the quote.
pub proof fn law_feeds_are_taken_in_turn(before: Seq<char>, html: Seq<char>, rest: Seq<char>)
    requires
        forall|i: int|
            0 <= i < before.len() ==> !#[trigger] occurs_at(
                before + HTML_START@ + html + rest,
                HTML_START@,
                i,
            ),
        HTML_END_PAV@.is_prefix_of(rest) || HTML_END_OPUIN@.is_prefix_of(rest),
        forall|i: int| 0 <= i < html.len() ==> !#[trigger] occurs_at(html + rest, HTML_END_PAV@, i),
        forall|i: int|
            0 <= i < html.len() ==> !#[trigger] occurs_at(html + rest, HTML_END_OPUIN@, i),
    ensures
        html_parts(before + HTML_START@ + html + rest) == match html_parts(rest.skip(1)) {
            Some(others) => Some(seq![html] + others),
            None => None,
        },
{
    let message = before + HTML_START@ + html + rest;
    let behind = html + rest;
    let at = before.len() as int;
    assert(message.subrange(at, at + HTML_START@.len()) =~= HTML_START@);
    lemma_found_at(message, HTML_START@, at);
    assert(message.skip(at + HTML_START@.len()) =~= behind);
    law_find_is_first(behind, HTML_END_PAV@, 0);
    law_find_is_first(behind, HTML_END_OPUIN@, 0);
    let end = html.len() as int;
    if HTML_END_PAV@.is_prefix_of(rest) {
        assert(behind.subrange(end, end + HTML_END_PAV@.len()) =~= HTML_END_PAV@);
        lemma_found_at(behind, HTML_END_PAV@, end);
    } else {
        assert(behind.subrange(end, end + HTML_END_OPUIN@.len()) =~= HTML_END_OPUIN@);
        lemma_found_at(behind, HTML_END_OPUIN@, end);
    }
    lemma_html_parts_shrink(message, at, end);
    assert(behind.skip(end + 1) =~= rest.skip(1));
    assert(behind.take(end) =~= html);
}

/// The HTML of a single feed is given back: no feed starts before it, no end mark starts before
/// the HTML ends, one does there, and no further feed follows.
pub proof fn law_single_feed_is_extracted(before: Seq<char>, html: Seq<char>, rest: Seq<char>)
    requires
        forall|i: int|
            0 <= i < before.len() ==> !#[trigger] occurs_at(
                before + HTML_START@ + html + rest,
                HTML_START@,
                i,
            ),
        HTML_END_PAV@.is_prefix_of(rest) || HTML_END_OPUIN@.is_prefix_of(rest),
        forall|i: int| 0 <= i < html.len() ==> !#[trigger] occurs_at(html + rest, HTML_END_PAV@, i),
        forall|i: int|
            0 <= i < html.len() ==> !#[trigger] occurs_at(html + rest, HTML_END_OPUIN@, i),
        !mentions(rest.skip(1), HTML_START@),
    ensures
        h5_html(before + HTML_START@ + html + rest) == Some(html),
{
    law_feeds_are_taken_in_turn(before, html, rest);
    law_find_is_first(rest.skip(1), HTML_START@, 0);
    assert(seq![html] + Seq::<Seq<char>>::empty() =~= seq![html]);
    lemma_join_push(Seq::empty(), html);
    assert(Seq::<Seq<char>>::empty().push(html) =~= seq![html]);
    assert(joined(Seq::empty(), Seq::empty()) + html =~= html);
}

/// A callback without escapes that the firewall let through gives the collapsed HTML of its
/// feeds.
pub proof fn law_callback_gives_its_feeds(body: Seq<char>)
    requires
        !mentions(body, WAF_HOST@),
        !body.contains('\\'),
        mentions(body, "_Callback("@) || mentions(body, "data:["@),
        h5_html(body) is Some,
    ensures
        processed(body) == collapsed(h5_html(body).unwrap()),
{
    law_unescaping_plain_text(body);
}

/// A message in which no feed starts gives no HTML.
pub proof fn law_no_feed_gives_nothing(message: Seq<char>)
    requires
        !mentions(message, HTML_START@),
    ensures
        h5_html(message) is None,
{
    law_find_is_first(message, HTML_START@, 0);
}

/// The extracted HTML is the HTML of all feeds in order: that of the first feed, and behind it
/// what is extracted from the text behind its quote.
pub proof fn law_feeds_are_run_together(before: Seq<char>, html: Seq<char>, rest: Seq<char>)
    requires
        forall|i: int|
            0 <= i < before.len() ==> !#[trigger] occurs_at(
                before + "html:'"@ + html + rest,
                "html:'"@,
                i,
            ),
        "',is_public_pav"@.is_prefix_of(rest) || "',opuin"@.is_prefix_of(rest),
        forall|i: int|
            0 <= i < html.len() ==> !#[trigger] occurs_at(html + rest, "',is_public_pav"@, i),
        forall|i: int| 0 <= i < html.len() ==> !#[trigger] occurs_at(html + rest, "',opuin"@, i),
    ensures
        !mentions(rest.skip(1), "html:'"@) ==> h5_html(before + "html:'"@ + html + rest) == Some(
            html,
        ),
        h5_html(rest.skip(1)) matches Some(others) ==> h5_html(before + "html:'"@ + html + rest)
            == Some(html + others),
        mentions(rest.skip(1), "html:'"@) && h5_html(rest.skip(1)) is None ==> h5_html(
            before + "html:'"@ + html + rest,
        ) is None,
{
    let behind = rest.skip(1);
    law_feeds_are_taken_in_turn(before, html, rest);
    law_find_is_first(behind, HTML_START@, 0);
    lemma_parts_of_feeds(behind);
    match html_parts(behind) {
        Some(others) => {
            law_joining_lists(seq![html], others, Seq::empty());
            if others.len() == 0 {
                assert(seq![html] + others =~= seq![html]);
            } else {
                assert(joined(seq![html], Seq::empty()) + Seq::<char>::empty() + joined(
                    others,
                    Seq::empty(),
                ) =~= html + joined(others, Seq::empty()));
            }
        },
        None => {},
    }
}

proof fn lemma_parts_of_feeds(message: Seq<char>)
    ensures
        html_parts(message) matches Some(parts) ==> (parts.len() == 0 <==> !mentions(
            message,
            HTML_START@,
        )),
{
    law_find_is_first(message, HTML_START@, 0);
}

/// A feed without an end mark behind its start gives nothing.
pub proof fn law_feed_needs_an_end(before: Seq<char>, rest: Seq<char>)
    requires
        forall|i: int|
            0 <= i < before.len() ==> !#[trigger] occurs_at(
                before + "html:'"@ + rest,
                "html:'"@,
                i,
            ),
        !mentions(rest, "',is_public_pav"@),
        !mentions(rest, "',opuin"@),
    ensures
        h5_html(before + "html:'"@ + rest) is None,
{
    let message = before + "html:'"@ + rest;
    law_first_part_is_found(before, "html:'"@, rest);
    assert(message.skip((before.len() + HTML_START@.len()) as int) =~= rest);
    law_find_is_first(rest, HTML_END_PAV@, 0);
    law_find_is_first(rest, HTML_END_OPUIN@, 0);
}

/// The text with `\/`, `\'` and `\"` undone, in this order.
spec fn unquoted(text: Seq<char>) -> Seq<char> {
    replaced(replaced(replaced(text, "\\/"@, "/"@), "\\'"@, "'"@), "\\\""@, "\""@)
}

proof fn lemma_no_start_within(before: Seq<char>, rest: Seq<char>, part: Seq<char>)
    requires
        part.len() > 0,
        !before.contains(part[0]),
    ensures
        forall|i: int| 0 <= i < before.len() ==> !#[trigger] occurs_at(before + rest, part, i),
{
    assert forall|i: int| 0 <= i < before.len() implies !#[trigger] occurs_at(
        before + rest,
        part,
        i,
    ) by {
        if occurs_at(before + rest, part, i) {
            assert((before + rest).subrange(i, i + part.len())[0] == before[i]);
            assert(before.contains(before[i]));
        }
    }
}

proof fn lemma_unquoted_behind(before: Seq<char>, rest: Seq<char>)
    requires
        !before.contains('\\'),
    ensures
        unquoted(before + rest) == before + unquoted(rest),
{
    reveal_strlit("\\/");
    reveal_strlit("\\'");
    reveal_strlit("\\\"");
    let first = replaced(rest, "\\/"@, "/"@);
    let second = replaced(first, "\\'"@, "'"@);
    lemma_no_start_within(before, rest, "\\/"@);
    law_replacing_behind_kept_text(before, rest, "\\/"@, "/"@);
    lemma_no_start_within(before, first, "\\'"@);
    law_replacing_behind_kept_text(before, first, "\\'"@, "'"@);
    lemma_no_start_within(before, second, "\\\""@);
    law_replacing_behind_kept_text(before, second, "\\\""@, "\""@);
}

proof fn lemma_kept_pair(c: char, rest: Seq<char>, part: Seq<char>, other: Seq<char>)
    requires
        part.len() == 2,
        part[0] == '\\',
        c != '\\',
        c != part[1],
    ensures
        replaced(seq!['\\', c] + rest, part, other) == seq!['\\', c] + replaced(rest, part, other),
{
    let before = seq!['\\', c];
    let text = before + rest;
    assert(text[0] == '\\' && text[1] == c);
    assert forall|i: int| 0 <= i < before.len() implies !#[trigger] occurs_at(text, part, i) by {
        if occurs_at(text, part, i) {
            let found = text.subrange(i, i + 2);
            assert(found[0] == text[i] && found[1] == text[i + 1]);
        }
    }
    law_replacing_behind_kept_text(before, rest, part, other);
}

proof fn lemma_exchanged_pair(c: char, rest: Seq<char>, part: Seq<char>, other: Seq<char>)
    requires
        part == seq!['\\', c],
    ensures
        replaced(seq!['\\', c] + rest, part, other) == other + replaced(rest, part, other),
{
    let none = Seq::<char>::empty();
    law_replacing_goes_left_to_right(none, rest, part, other);
    assert(none + part + rest =~= part + rest);
    assert(none + other + replaced(rest, part, other) =~= other + replaced(rest, part, other));
}

proof fn lemma_unquoted_pairs(rest: Seq<char>)
    ensures
        unquoted(seq!['\\', '/'] + rest) == "/"@ + unquoted(rest),
        unquoted(seq!['\\', '\''] + rest) == "'"@ + unquoted(rest),
        unquoted(seq!['\\', '"'] + rest) == "\""@ + unquoted(rest),
{
    reveal_strlit("\\/");
    reveal_strlit("\\'");
    reveal_strlit("\\\"");
    reveal_strlit("/");
    reveal_strlit("'");
    reveal_strlit("\"");
    assert("\\/"@ =~= seq!['\\', '/']);
    assert("\\'"@ =~= seq!['\\', '\'']);
    assert("\\\""@ =~= seq!['\\', '"']);
    let first = replaced(rest, "\\/"@, "/"@);
    let second = replaced(first, "\\'"@, "'"@);
    lemma_exchanged_pair('/', rest, "\\/"@, "/"@);
    lemma_no_start_within("/"@, first, "\\'"@);
    law_replacing_behind_kept_text("/"@, first, "\\'"@, "'"@);
    lemma_no_start_within("/"@, second, "\\\""@);
    law_replacing_behind_kept_text("/"@, second, "\\\""@, "\""@);
    lemma_kept_pair('\'', rest, "\\/"@, "/"@);
    lemma_exchanged_pair('\'', first, "\\'"@, "'"@);
    lemma_no_start_within("'"@, second, "\\\""@);
    law_replacing_behind_kept_text("'"@, second, "\\\""@, "\""@);
    lemma_kept_pair('"', rest, "\\/"@, "/"@);
    lemma_kept_pair('"', first, "\\'"@, "'"@);
    lemma_exchanged_pair('"', second, "\\\""@, "\""@);
}

/// Whether a backslash before this text is part of an escape.
pub open spec fn completes_escape(after: Seq<char>) -> bool {
    ||| after.len() > 0 && (after[0] == '/' || after[0] == '\'' || after[0] == '"')
    ||| after.len() > 2 && after[0] == 'x' && is_hex(after[1]) && is_hex(after[2])
}

proof fn lemma_unescaped_pair(before: Seq<char>, c: char, after: Seq<char>)
    requires
        !before.contains('\\'),
        c != '\\',
        c != 'x',
    ensures
        unescaped(before + seq!['\\', c] + after) == before + unquoted(
            seq!['\\', c] + hex_unescaped(after),
        ),
{
    let rest = seq![c] + after;
    assert(rest[0] == c);
    law_other_backslashes_are_kept(rest);
    assert(!seq![c].contains('\\'));
    law_text_before_escapes_is_kept(seq![c], after);
    assert(before + seq!['\\', c] + after =~= before + (seq!['\\'] + rest));
    law_text_before_escapes_is_kept(before, seq!['\\'] + rest);
    assert(seq!['\\'] + (seq![c] + hex_unescaped(after)) =~= seq!['\\', c] + hex_unescaped(after));
    lemma_unquoted_behind(before, seq!['\\', c] + hex_unescaped(after));
}

/// Behind text without a backslash, `\/`, `\'` and `\"` lose their backslash, a backslash that
/// starts no escape is kept, and what follows is undone on its own.
pub proof fn law_escapes_are_undone(before: Seq<char>, after: Seq<char>)
    requires
        !before.contains('\\'),
    ensures
        unescaped(before + "\\/"@ + after) == before + "/"@ + unescaped(after),
        unescaped(before + "\\'"@ + after) == before + "'"@ + unescaped(after),
        unescaped(before + "\\\""@ + after) == before + "\""@ + unescaped(after),
        unescaped(before + after) == before + unescaped(after),
        !completes_escape(after) && (after.len() > 0 ==> after[0] != '\\') ==> unescaped(
            before + "\\"@ + after,
        ) == before + "\\"@ + unescaped(after),
{
    reveal_strlit("\\/");
    reveal_strlit("\\'");
    reveal_strlit("\\\"");
    reveal_strlit("\\");
    assert("\\/"@ =~= seq!['\\', '/']);
    assert("\\'"@ =~= seq!['\\', '\'']);
    assert("\\\""@ =~= seq!['\\', '"']);
    assert("\\"@ =~= seq!['\\']);
    lemma_unescaped_pair(before, '/', after);
    lemma_unescaped_pair(before, '\'', after);
    lemma_unescaped_pair(before, '"', after);
    lemma_unquoted_pairs(hex_unescaped(after));
    assert(before + ("/"@ + unescaped(after)) =~= before + "/"@ + unescaped(after));
    assert(before + ("'"@ + unescaped(after)) =~= before + "'"@ + unescaped(after));
    assert(before + ("\""@ + unescaped(after)) =~= before + "\""@ + unescaped(after));
    law_text_before_escapes_is_kept(before, after);
    lemma_unquoted_behind(before, hex_unescaped(after));
    if !completes_escape(after) && (after.len() > 0 ==> after[0] != '\\') {
        law_other_backslashes_are_kept(after);
        assert(before + "\\"@ + after =~= before + (seq!['\\'] + after));
        law_text_before_escapes_is_kept(before, seq!['\\'] + after);
        lemma_unquoted_behind(before, seq!['\\'] + hex_unescaped(after));
        lemma_lone_backslash(after);
        assert(before + (seq!['\\'] + unescaped(after)) =~= before + "\\"@ + unescaped(after));
    }
}

proof fn lemma_lone_backslash(after: Seq<char>)
    requires
        !completes_escape(after),
        after.len() > 0 ==> after[0] != '\\',
    ensures
        unquoted(seq!['\\'] + hex_unescaped(after)) == seq!['\\'] + unescaped(after),
{
    reveal_strlit("\\/");
    reveal_strlit("\\'");
    reveal_strlit("\\\"");
    if after.len() == 0 {
        let none = Seq::<char>::empty();
        assert(after =~= none);
        let lone = seq!['\\'];
        lemma_lone_is_kept(lone);
        assert(replaced(none, "\\/"@, "/"@) =~= none);
        assert(replaced(none, "\\'"@, "'"@) =~= none);
        assert(replaced(none, "\\\""@, "\""@) =~= none);
        assert(lone + none =~= lone);
    } else {
        let c = after[0];
        let rest = after.skip(1);
        assert(after =~= seq![c] + rest);
        assert(!seq![c].contains('\\'));
        law_text_before_escapes_is_kept(seq![c], rest);
        let decoded = hex_unescaped(rest);
        assert(seq!['\\'] + (seq![c] + decoded) =~= seq!['\\', c] + decoded);
        let first = replaced(decoded, "\\/"@, "/"@);
        let second = replaced(first, "\\'"@, "'"@);
        lemma_kept_pair(c, decoded, "\\/"@, "/"@);
        lemma_kept_pair(c, first, "\\'"@, "'"@);
        lemma_kept_pair(c, second, "\\\""@, "\""@);
        lemma_unquoted_behind(seq![c], decoded);
        assert(seq!['\\', c] + unquoted(decoded) =~= seq!['\\'] + (seq![c] + unquoted(decoded)));
    }
}

proof fn lemma_lone_is_kept(lone: Seq<char>)
    requires
        lone == seq!['\\'],
    ensures
        unquoted(lone) == lone,
{
    reveal_strlit("\\/");
    reveal_strlit("\\'");
    reveal_strlit("\\\"");
    law_replacing_nothing(lone, "\\/"@, "/"@);
    law_replacing_nothing(lone, "\\'"@, "'"@);
    law_replacing_nothing(lone, "\\\""@, "\""@);
}

/// Behind text without a backslash, `\xHH` becomes the character with that number, and what
/// follows is undone on its own. The backslash itself is left out: it may start another escape.
pub proof fn law_numbered_escapes_are_undone(
    before: Seq<char>,
    high: int,
    low: int,
    escape: Seq<char>,
    after: Seq<char>,
)
    requires
        !before.contains('\\'),
        0 <= high < 16,
        0 <= low < 16,
        16 * high + low != 92,
        escape.len() == 4,
        escape[0] == '\\',
        escape[1] == 'x',
        escape[2] == "0123456789abcdef"@[high] || escape[2] == "0123456789ABCDEF"@[high],
        escape[3] == "0123456789abcdef"@[low] || escape[3] == "0123456789ABCDEF"@[low],
    ensures
        unescaped(before + escape + after) == before + seq![(16 * high + low) as char] + unescaped(
            after,
        ),
{
    law_hex_escapes_are_decoded(before, high, low, escape, after);
    let c = (16 * high + low) as char;
    assert(c != '\\');
    let kept = before.push(c);
    assert(before + seq![c] =~= kept);
    assert(!kept.contains('\\')) by {
        if kept.contains('\\') {
            let k = choose|k: int| 0 <= k < kept.len() && kept[k] == '\\';
            assert(before[k] == '\\');
        }
    }
    lemma_unquoted_behind(kept, hex_unescaped(after));
}

/// Without its start mark, or without an end mark behind the first, nothing is cut out.
pub proof fn law_cut_needs_both_marks(
    before: Seq<char>,
    start: Seq<char>,
    rest: Seq<char>,
    end: Seq<char>,
)
    requires
        forall|i: int| 0 <= i < before.len() ==> !#[trigger] occurs_at(before + start + rest, start, i),
    ensures
        !mentions(rest, end) ==> between(before + start + rest, start, end) is None,
        forall|source: Seq<char>|
            !mentions(source, start) ==> #[trigger] between(source, start, end) is None,
{
    law_first_part_is_found(before, start, rest);
    assert((before + start + rest).skip((before.len() + start.len()) as int) =~= rest);
    law_find_is_first(rest, end, 0);
}

proof fn lemma_backslashes_are_filtered(text: Seq<char>)
    ensures
        replaced(text, "\\"@, Seq::empty()) == text.filter(|c: char| c != '\\'),
    decreases text.len(),
{
    reveal_strlit("\\");
    let keep = |c: char| c != '\\';
    let none = Seq::<char>::empty();
    if text.len() == 0 {
        assert(text =~= none);
        assert(replaced(text, "\\"@, none) =~= none);
        reveal(Seq::filter);
    } else {
        let head = seq![text[0]];
        let rest = text.skip(1);
        assert(text =~= head + rest);
        lemma_backslashes_are_filtered(rest);
        Seq::filter_distributes_over_add(head, rest, keep);
        assert(head.filter(keep) == if text[0] == '\\' {
            none
        } else {
            head
        }) by {
            reveal_with_fuel(Seq::filter, 2);
            assert(head.drop_last() =~= none);
        }
        if text[0] == '\\' {
            assert("\\"@ =~= head);
            law_replacing_goes_left_to_right(none, rest, "\\"@, none);
            assert(none + "\\"@ + rest =~= text);
            assert(none + none + replaced(rest, "\\"@, none) =~= replaced(rest, "\\"@, none));
            assert(none + rest.filter(keep) =~= rest.filter(keep));
        } else {
            assert(!head.contains("\\"@[0]));
            lemma_no_start_within(head, rest, "\\"@);
            law_replacing_behind_kept_text(head, rest, "\\"@, none);
        }
    }
}

/// An old-style message gives what stands in the first of three quotings that it has, and the
/// whole of it where it has none: unescaped, without its backslashes and collapsed.
pub proof fn law_old_message_is_cut(message: Seq<char>)
    ensures
        ({
            let text = unescaped(message);
            let keep = |c: char| c != '\\';
            let first = between(text, "html:'"@, "',opuin"@);
            let second = between(text, "html:\""@, "\",opuin"@);
            let third = between(text, "\"html\":\""@, "\",\"opuin"@);
            &&& first matches Some(html) ==> old_processed(message) == collapsed(html.filter(keep))
            &&& first is None ==> {
                &&& second matches Some(html) ==> old_processed(message) == collapsed(
                    html.filter(keep),
                )
                &&& second is None ==> {
                    &&& third matches Some(html) ==> old_processed(message) == collapsed(
                        html.filter(keep),
                    )
                    &&& third is None ==> old_processed(message) == collapsed(text.filter(keep))
                }
            }
        }),
{
    lemma_backslashes_are_filtered(old_html(unescaped(message)));
}

/// What a body gives: nothing if it names the firewall's host; the HTML of its feeds if, its
/// escapes undone, it looks like a callback and they can be extracted; and otherwise what the
/// unescaped body gives as an old-style message.
pub proof fn law_response_is_processed(body: Seq<char>)
    ensures
        mentions(body, "waf.tencent.com"@) ==> processed(body) == Seq::<char>::empty(),
        !mentions(body, "waf.tencent.com"@) ==> {
            let message = unescaped(body);
            let callback = mentions(message, "_Callback("@) || mentions(message, "data:["@);
            &&& callback ==> (h5_html(message) matches Some(html) ==> processed(body) == collapsed(
                html,
            ))
            &&& !callback || h5_html(message) is None ==> processed(body) == old_processed(message)
        },
{
}

proof fn lemma_first_of_replaced(rest: Seq<char>, part: Seq<char>, other: Seq<char>)
    requires
        rest.len() > 0,
        part.len() > 0,
        other.len() > 0,
    ensures
        replaced(rest, part, other).len() > 0,
        replaced(rest, part, other)[0] == rest[0] || replaced(rest, part, other)[0] == other[0],
{
}

proof fn lemma_kept_backslash(rest: Seq<char>, part: Seq<char>, other: Seq<char>)
    requires
        rest.len() > 0,
        part.len() == 2,
        rest[0] != part[1],
    ensures
        replaced(seq!['\\'] + rest, part, other) == seq!['\\'] + replaced(rest, part, other),
{
    let before = seq!['\\'];
    let text = before + rest;
    assert forall|i: int| 0 <= i < before.len() implies !#[trigger] occurs_at(text, part, i) by {
        if occurs_at(text, part, i) {
            assert(text.subrange(i, i + 2)[1] == text[i + 1]);
            assert(text[1] == rest[0]);
        }
    }
    law_replacing_behind_kept_text(before, rest, part, other);
}

proof fn lemma_unquoted_behind_backslash(rest: Seq<char>)
    requires
        rest.len() > 0,
        rest[0] != '/',
        rest[0] != '\'',
        rest[0] != '"',
    ensures
        unquoted(seq!['\\'] + rest) == seq!['\\'] + unquoted(rest),
{
    reveal_strlit("\\/");
    reveal_strlit("\\'");
    reveal_strlit("\\\"");
    reveal_strlit("/");
    reveal_strlit("'");
    let first = replaced(rest, "\\/"@, "/"@);
    let second = replaced(first, "\\'"@, "'"@);
    lemma_first_of_replaced(rest, "\\/"@, "/"@);
    lemma_first_of_replaced(first, "\\'"@, "'"@);
    lemma_kept_backslash(rest, "\\/"@, "/"@);
    lemma_kept_backslash(first, "\\'"@, "'"@);
    lemma_kept_backslash(second, "\\\""@, "\""@);
}

/// A backslash before another is kept, and what follows is undone on its own, unless what
/// follows is the number of a slash or a quote: that is then undone as if it stood there itself.
pub proof fn law_backslash_before_a_backslash(before: Seq<char>, after: Seq<char>)
    requires
        !before.contains('\\'),
        after.len() > 0,
        after[0] == '\\',
    ensures
        ({
            let c = hex_escape_char(after);
            let numbered = starts_with_hex_escape(after) && (c == '/' || c == '\'' || c == '"');
            &&& numbered ==> unescaped(before + "\\"@ + after) == before + seq![c] + unescaped(
                after.skip(4),
            )
            &&& !numbered ==> unescaped(before + "\\"@ + after) == before + "\\"@ + unescaped(after)
        }),
{
    reveal_strlit("\\");
    reveal_strlit("/");
    reveal_strlit("'");
    reveal_strlit("\"");
    assert("\\"@ =~= seq!['\\']);
    assert(before + "\\"@ + after =~= before + (seq!['\\'] + after));
    law_text_before_escapes_is_kept(before, seq!['\\'] + after);
    law_other_backslashes_are_kept(after);
    let decoded = hex_unescaped(after);
    lemma_unquoted_behind(before, seq!['\\'] + decoded);
    let c = hex_escape_char(after);
    if starts_with_hex_escape(after) && (c == '/' || c == '\'' || c == '"') {
        let rest = hex_unescaped(after.skip(4));
        assert(seq!['\\'] + decoded =~= seq!['\\', c] + rest);
        lemma_unquoted_pairs(rest);
        assert("/"@ =~= seq!['/'] && "'"@ =~= seq!['\''] && "\""@ =~= seq!['"']);
        assert(before + (seq![c] + unquoted(rest)) =~= before + seq![c] + unquoted(rest));
    } else {
        lemma_unquoted_behind_backslash(decoded);
        assert(before + (seq!['\\'] + unquoted(decoded)) =~= before + "\\"@ + unquoted(decoded));
    }
}

/// The number of a backslash stands for one, which may start an escape of the short form but not
/// another number.
pub proof fn law_number_of_the_backslash(before: Seq<char>, escape: Seq<char>, after: Seq<char>)
    requires
        !before.contains('\\'),
        escape == "\\x5c"@ || escape == "\\x5C"@,
    ensures
        after.len() > 2 && after[0] == 'x' && is_hex(after[1]) && is_hex(after[2]) ==> unescaped(
            before + escape + after,
        ) == before + "\\"@ + unescaped(after),
        !(after.len() > 2 && after[0] == 'x' && is_hex(after[1]) && is_hex(after[2]))
            ==> unescaped(before + escape + after) == unescaped(before + "\\"@ + after),
{
    reveal_strlit("\\x5c");
    reveal_strlit("\\x5C");
    reveal_strlit("\\");
    reveal_strlit("0123456789abcdef");
    reveal_strlit("0123456789ABCDEF");
    law_hex_escapes_are_decoded(before, 5, 12, escape, after);
    assert(92u8 as char == '\\');
    assert("\\"@ =~= seq!['\\']);
    let decoded = hex_unescaped(after);
    assert(before + seq!['\\'] + decoded =~= before + (seq!['\\'] + decoded));
    if after.len() > 2 && after[0] == 'x' && is_hex(after[1]) && is_hex(after[2]) {
        assert(after =~= seq!['x'] + after.skip(1));
        assert(!seq!['x'].contains('\\'));
        law_text_before_escapes_is_kept(seq!['x'], after.skip(1));
        assert(decoded[0] == 'x');
        lemma_unquoted_behind(before, seq!['\\'] + decoded);
        lemma_unquoted_behind_backslash(decoded);
        assert(before + (seq!['\\'] + unquoted(decoded)) =~= before + "\\"@ + unquoted(decoded));
    } else {
        law_other_backslashes_are_kept(after);
        law_text_before_escapes_is_kept(before, seq!['\\'] + after);
        assert(before + "\\"@ + after =~= before + (seq!['\\'] + after));
    }
}

} // verus!
