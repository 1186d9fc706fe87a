//! Searching, cutting and joining text, character by character.

use vstd::prelude::*;

verus! {

/// `String::push` of the standard library: appends one character.
pub assume_specification[ String::push ](s: &mut String, c: char)
    ensures
        final(s)@ == old(s)@.push(c),
;

/// The texts of a list of strings.
pub open spec fn texts(list: Seq<String>) -> Seq<Seq<char>> {
    list.map_values(|s: String| s@)
}

/// Whether `part` stands in `text` at `at`.
pub open spec fn occurs_at(text: Seq<char>, part: Seq<char>, at: int) -> bool {
    &&& 0 <= at
    &&& at + part.len() <= text.len()
    &&& text.subrange(at, at + part.len()) == part
}

/// Whether `part` stands anywhere in `text`.
pub open spec fn mentions(text: Seq<char>, part: Seq<char>) -> bool {
    exists|at: int| occurs_at(text, part, at)
}

/// The first place at or after `from` where `part` stands in `text`.
pub open spec fn find_from(text: Seq<char>, part: Seq<char>, from: int) -> Option<int>
    decreases text.len() + 1 - from,
{
    if from < 0 || from + part.len() > text.len() {
        None
    } else if occurs_at(text, part, from) {
        Some(from)
    } else {
        find_from(text, part, from + 1)
    }
}

/// The first place where `part` stands in `text`.
pub open spec fn find(text: Seq<char>, part: Seq<char>) -> Option<int> {
    find_from(text, part, 0)
}

/// The first place found is a place, none comes before it, and there is one whenever the part
/// stands in the text at all.
pub proof fn law_find_is_first(text: Seq<char>, part: Seq<char>, from: int)
    requires
        from >= 0,
    ensures
        match find_from(text, part, from) {
            Some(at) => from <= at && occurs_at(text, part, at) && (forall|i: int|
                from <= i < at ==> !#[trigger] occurs_at(text, part, i)),
            None => forall|i: int| from <= i ==> !#[trigger] occurs_at(text, part, i),
        },
    decreases text.len() + 1 - from,
{
    if from + part.len() <= text.len() && !occurs_at(text, part, from) {
        law_find_is_first(text, part, from + 1);
    }
}

/// `text` with every occurrence of `old_part` from `from` on replaced, left to right.
pub open spec fn replaced_from(
    text: Seq<char>,
    old_part: Seq<char>,
    new_part: Seq<char>,
    from: int,
) -> Seq<char>
    decreases text.len() - from,
{
    if from < 0 || from >= text.len() || old_part.len() == 0 {
        Seq::empty()
    } else if occurs_at(text, old_part, from) {
        new_part + replaced_from(text, old_part, new_part, from + old_part.len())
    } else {
        seq![text[from]] + replaced_from(text, old_part, new_part, from + 1)
    }
}

/// `text` with every occurrence of `old_part` replaced by `new_part`, left to right and
/// without overlap.
pub open spec fn replaced(text: Seq<char>, old_part: Seq<char>, new_part: Seq<char>) -> Seq<char> {
    replaced_from(text, old_part, new_part, 0)
}

/// The parts one after the other, with `separator` between each two.
pub open spec fn joined(parts: Seq<Seq<char>>, separator: Seq<char>) -> Seq<char>
    decreases parts.len(),
{
    if parts.len() == 0 {
        Seq::empty()
    } else if parts.len() == 1 {
        parts[0]
    } else {
        joined(parts.drop_last(), separator) + separator + parts.last()
    }
}

/// `text` without the copies of `prefix` that it starts with.
pub open spec fn without_prefixes(text: Seq<char>, prefix: Seq<char>) -> Seq<char>
    decreases text.len(),
{
    if prefix.len() > 0 && prefix.is_prefix_of(text) {
        without_prefixes(text.skip(prefix.len() as int), prefix)
    } else {
        text
    }
}

/// Whether the character has the Unicode property `White_Space`.
pub open spec fn is_white_space(c: char) -> bool {
    ||| '\u{9}' <= c <= '\u{d}'
    ||| c == ' ' || c == '\u{85}' || c == '\u{a0}' || c == '\u{1680}'
    ||| '\u{2000}' <= c <= '\u{200a}'
    ||| c == '\u{2028}' || c == '\u{2029}' || c == '\u{202f}' || c == '\u{205f}' || c == '\u{3000}'
}

/// `text` without its leading white space.
pub open spec fn trimmed_start(text: Seq<char>) -> Seq<char>
    decreases text.len(),
{
    if text.len() > 0 && is_white_space(text[0]) {
        trimmed_start(text.skip(1))
    } else {
        text
    }
}

/// `text` without its trailing white space.
pub open spec fn trimmed_end(text: Seq<char>) -> Seq<char>
    decreases text.len(),
{
    if text.len() > 0 && is_white_space(text.last()) {
        trimmed_end(text.drop_last())
    } else {
        text
    }
}

/// `text` without white space at either end.
pub open spec fn trimmed(text: Seq<char>) -> Seq<char> {
    trimmed_end(trimmed_start(text))
}

/// The characters of a string.
pub fn characters(text: &str) -> (list: Vec<char>)
    ensures
        list@ == text@,
{
    let mut list: Vec<char> = Vec::new();
    for c in it: text.chars()
        invariant
            it.seq() == text@,
            list@ == it.seq().take(it.index() as int),
    {
        list.push(c);
    }
    assert(text@.take(text@.len() as int) == text@);
    list
}

/// The string of the characters from `start` up to `end`.
pub fn string_of(list: &Vec<char>, start: usize, end: usize) -> (text: String)
    requires
        start <= end <= list@.len(),
    ensures
        text@ == list@.subrange(start as int, end as int),
{
    let mut text = String::new();
    let mut i: usize = start;
    while i < end
        invariant
            start <= i <= end <= list@.len(),
            text@ == list@.subrange(start as int, i as int),
        decreases end - i,
    {
        text.push(list[i]);
        i = i + 1;
        assert(list@.subrange(start as int, i as int).drop_last() == list@.subrange(
            start as int,
            i - 1,
        ));
    }
    text
}

/// Whether two strings hold the same characters.
pub fn same_text(a: &str, b: &str) -> (r: bool)
    ensures
        r == (a@ == b@),
{
    let first = characters(a);
    let second = characters(b);
    assert(a@.subrange(0, a@.len() as int) =~= a@);
    first.len() == second.len() && matches_at(&first, &second, 0)
}

/// Whether `part` stands in `text` at `at`.
pub fn matches_at(text: &Vec<char>, part: &Vec<char>, at: usize) -> (r: bool)
    requires
        at <= text@.len(),
    ensures
        r == occurs_at(text@, part@, at as int),
{
    let length: usize = text.len();
    if length - at < part.len() {
        return false;
    }
    let mut i: usize = 0;
    while i < part.len()
        invariant
            length == text@.len(),
            at + part@.len() <= text@.len(),
            i <= part@.len(),
            forall|k: int| 0 <= k < i ==> text@[at + k] == part@[k],
        decreases part@.len() - i,
    {
        if text[at + i] != part[i] {
            assert(text@.subrange(at as int, at + part@.len())[i as int] == text@[at + i]);
            return false;
        }
        i = i + 1;
    }
    assert(text@.subrange(at as int, at + part@.len()) =~= part@);
    true
}

/// The first place at or after `from` where `part` stands in `text`.
pub fn position_from(text: &Vec<char>, part: &Vec<char>, from: usize) -> (r: Option<usize>)
    requires
        from <= text@.len(),
    ensures
        match r {
            Some(at) => find_from(text@, part@, from as int) == Some(at as int) && from <= at && at
                + part@.len() <= text@.len(),
            None => find_from(text@, part@, from as int) is None,
        },
{
    if text.len() - from < part.len() {
        return None;
    }
    let last: usize = text.len() - part.len();
    let mut at: usize = from;
    loop
        invariant
            last + part@.len() == text@.len(),
            from <= at <= last,
            find_from(text@, part@, from as int) == find_from(text@, part@, at as int),
        decreases last - at,
    {
        if matches_at(text, part, at) {
            return Some(at);
        }
        assert(find_from(text@, part@, at as int) == find_from(text@, part@, at + 1));
        if at == last {
            return None;
        }
        at = at + 1;
    }
}

/// Whether `part` stands anywhere in `text`.
pub fn contains(text: &str, part: &str) -> (r: bool)
    ensures
        r == mentions(text@, part@),
{
    let list = characters(text);
    let wanted = characters(part);
    proof {
        law_find_is_first(text@, part@, 0);
    }
    position_from(&list, &wanted, 0).is_some()
}

/// Whether `text` starts with `prefix`.
pub fn starts_with(text: &str, prefix: &str) -> (r: bool)
    ensures
        r == prefix@.is_prefix_of(text@),
{
    let list = characters(text);
    let wanted = characters(prefix);
    matches_at(&list, &wanted, 0)
}

/// `text` with every occurrence of `old_part` replaced by `new_part`.
pub fn replace(text: &str, old_part: &str, new_part: &str) -> (r: String)
    requires
        old_part@.len() > 0,
    ensures
        r@ == replaced(text@, old_part@, new_part@),
{
    let list = characters(text);
    let wanted = characters(old_part);
    let mut out = String::new();
    let mut at: usize = 0;
    while at < list.len()
        invariant
            list@ == text@,
            wanted@ == old_part@,
            old_part@.len() > 0,
            at <= list@.len(),
            out@ + replaced_from(text@, old_part@, new_part@, at as int) == replaced(
                text@,
                old_part@,
                new_part@,
            ),
        decreases list@.len() - at,
    {
        let ghost before = out@;
        if matches_at(&list, &wanted, at) {
            out.append(new_part);
            at = at + wanted.len();
            assert(out@ + replaced_from(text@, old_part@, new_part@, at as int) =~= before + (
            new_part@ + replaced_from(text@, old_part@, new_part@, at as int)));
        } else {
            out.push(list[at]);
            at = at + 1;
            assert(out@ + replaced_from(text@, old_part@, new_part@, at as int) =~= before + (
            seq![text@[at - 1]] + replaced_from(text@, old_part@, new_part@, at as int)));
        }
    }
    assert(out@ + Seq::empty() =~= out@);
    out
}

/// The parts one after the other, with `separator` between each two.
pub fn join(parts: &Vec<String>, separator: &str) -> (r: String)
    ensures
        r@ == joined(texts(parts@), separator@),
{
    let mut out = String::new();
    let mut i: usize = 0;
    while i < parts.len()
        invariant
            i <= parts@.len(),
            out@ == joined(texts(parts@).take(i as int), separator@),
        decreases parts@.len() - i,
    {
        if i > 0 {
            out.append(separator);
        }
        out.append(parts[i].as_str());
        i = i + 1;
        assert(texts(parts@).take(i as int).drop_last() =~= texts(parts@).take(i - 1));
        assert(i == 1 ==> out@ =~= parts@[0]@);
    }
    assert(texts(parts@).take(i as int) =~= texts(parts@));
    out
}

/// `text` without the copies of `prefix` that it starts with.
pub fn trim_start_matches(text: &str, prefix: &str) -> (r: String)
    requires
        prefix@.len() > 0,
    ensures
        r@ == without_prefixes(text@, prefix@),
{
    let list = characters(text);
    let wanted = characters(prefix);
    let mut at: usize = 0;
    assert(text@.skip(0) =~= text@);
    loop
        invariant
            list@ == text@,
            wanted@ == prefix@,
            prefix@.len() > 0,
            at <= list@.len(),
            without_prefixes(text@, prefix@) == without_prefixes(text@.skip(at as int), prefix@),
        ensures
            !prefix@.is_prefix_of(text@.skip(at as int)),
        decreases list@.len() - at,
    {
        let ghost rest = text@.skip(at as int);
        assert(at + prefix@.len() <= text@.len() ==> rest.subrange(0, prefix@.len() as int)
            =~= text@.subrange(at as int, at + prefix@.len()));
        if !matches_at(&list, &wanted, at) {
            break ;
        }
        assert(rest.skip(prefix@.len() as int) =~= text@.skip(at + prefix@.len()));
        let length: usize = list.len();
        assert(at + prefix@.len() <= length);
        at = at + wanted.len();
    }
    assert(text@.skip(at as int) =~= text@.subrange(at as int, text@.len() as int));
    string_of(&list, at, list.len())
}

/// Whether the character has the Unicode property `White_Space`.
pub fn is_space(c: char) -> (r: bool)
    ensures
        r == is_white_space(c),
{
    ('\u{9}' <= c && c <= '\u{d}') || c == ' ' || c == '\u{85}' || c == '\u{a0}' || c == '\u{1680}'
        || ('\u{2000}' <= c && c <= '\u{200a}') || c == '\u{2028}' || c == '\u{2029}' || c
        == '\u{202f}' || c == '\u{205f}' || c == '\u{3000}'
}

/// `text` without white space at either end.
pub fn trim(text: &str) -> (r: String)
    ensures
        r@ == trimmed(text@),
{
    let list = characters(text);
    let mut start: usize = 0;
    assert(text@.skip(0) =~= text@);
    while start < list.len() && is_space(list[start])
        invariant
            list@ == text@,
            start <= list@.len(),
            trimmed_start(text@) == trimmed_start(text@.skip(start as int)),
        decreases list@.len() - start,
    {
        assert(text@.skip(start as int).skip(1) =~= text@.skip(start + 1));
        start = start + 1;
    }
    let mut end: usize = list.len();
    assert(text@.skip(start as int) =~= text@.subrange(start as int, end as int));
    while start < end && is_space(list[end - 1])
        invariant
            list@ == text@,
            start <= end <= list@.len(),
            trimmed(text@) == trimmed_end(text@.subrange(start as int, end as int)),
        decreases end - start,
    {
        assert(text@.subrange(start as int, end as int).drop_last() =~= text@.subrange(
            start as int,
            end - 1,
        ));
        end = end - 1;
    }
    string_of(&list, start, end)
}

/// What is left after removing the copies of a prefix does not start with it.
pub proof fn law_prefixes_are_gone(text: Seq<char>, prefix: Seq<char>)
    requires
        prefix.len() > 0,
    ensures
        !prefix.is_prefix_of(without_prefixes(text, prefix)),
    decreases text.len(),
{
    if prefix.is_prefix_of(text) {
        law_prefixes_are_gone(text.skip(prefix.len() as int), prefix);
    }
}

proof fn lemma_replaced_keeps(text: Seq<char>, part: Seq<char>, other: Seq<char>, from: int)
    requires
        part.len() > 0,
        0 <= from <= text.len(),
        forall|i: int| from <= i ==> !#[trigger] occurs_at(text, part, i),
    ensures
        replaced_from(text, part, other, from) == text.skip(from),
    decreases text.len() - from,
{
    if from < text.len() {
        assert(!occurs_at(text, part, from));
        lemma_replaced_keeps(text, part, other, from + 1);
        assert(seq![text[from]] + text.skip(from + 1) =~= text.skip(from));
    } else {
        assert(text.skip(from) =~= Seq::empty());
    }
}

/// Replacing what does not occur changes nothing.
pub proof fn law_replacing_nothing(text: Seq<char>, part: Seq<char>, other: Seq<char>)
    requires
        part.len() > 0,
        !mentions(text, part),
    ensures
        replaced(text, part, other) == text,
{
    assert forall|i: int| 0 <= i implies !#[trigger] occurs_at(text, part, i) by {}
    lemma_replaced_keeps(text, part, other, 0);
    assert(text.skip(0) =~= text);
}

/// A part stands in a text where the text is what stands before it, the part and the rest, and
/// nowhere else.
pub proof fn law_occurrence_splits_text(text: Seq<char>, part: Seq<char>, at: int)
    ensures
        forall|before: Seq<char>, after: Seq<char>| #[trigger]
            occurs_at(before + part + after, part, before.len() as int),
        occurs_at(text, part, at) ==> 0 <= at <= text.len() - part.len() && text == text.take(at)
            + part + text.skip(at + part.len()),
{
    assert forall|before: Seq<char>, after: Seq<char>| #[trigger]
        occurs_at(before + part + after, part, before.len() as int) by {
        assert((before + part + after).subrange(
            before.len() as int,
            (before.len() + part.len()) as int,
        ) =~= part);
    }
    if occurs_at(text, part, at) {
        assert(text =~= text.take(at) + text.subrange(at, at + part.len()) + text.skip(
            at + part.len(),
        ));
    }
}

/// A text mentions what it is put together with, and it can be taken apart at what it mentions.
pub proof fn law_mentioned_part_splits_text(text: Seq<char>, part: Seq<char>)
    ensures
        forall|before: Seq<char>, after: Seq<char>| #[trigger]
            mentions(before + part + after, part),
        mentions(text, part) ==> exists|before: Seq<char>, after: Seq<char>|
            text == #[trigger] (before + part + after),
{
    law_occurrence_splits_text(text, part, 0);
    assert forall|before: Seq<char>, after: Seq<char>| #[trigger]
        mentions(before + part + after, part) by {
        assert(occurs_at(before + part + after, part, before.len() as int));
    }
    if mentions(text, part) {
        let at = choose|at: int| occurs_at(text, part, at);
        law_occurrence_splits_text(text, part, at);
        assert(text == text.take(at) + part + text.skip(at + part.len()));
    }
}

/// What stands behind a text in which the part does not start is found right there; a part that
/// is not mentioned is not found.
pub proof fn law_first_part_is_found(before: Seq<char>, part: Seq<char>, after: Seq<char>)
    requires
        forall|i: int|
            0 <= i < before.len() ==> !#[trigger] occurs_at(before + part + after, part, i),
    ensures
        find(before + part + after, part) == Some(before.len() as int),
        forall|text: Seq<char>| find(text, part) is None <==> !#[trigger] mentions(text, part),
{
    law_occurrence_splits_text(before, part, 0);
    law_find_is_first(before + part + after, part, 0);
    assert(occurs_at(before + part + after, part, before.len() as int));
    assert forall|text: Seq<char>| find(text, part) is None <==> !#[trigger] mentions(
        text,
        part,
    ) by {
        law_find_is_first(text, part, 0);
    }
}

proof fn lemma_replaced_in_suffix(
    text: Seq<char>,
    part: Seq<char>,
    other: Seq<char>,
    start: int,
    from: int,
)
    requires
        part.len() > 0,
        0 <= start <= text.len(),
        0 <= from,
    ensures
        replaced_from(text.skip(start), part, other, from) == replaced_from(
            text,
            part,
            other,
            start + from,
        ),
    decreases text.len() - start - from,
{
    if start + from < text.len() {
        if start + from + part.len() <= text.len() {
            assert(text.skip(start).subrange(from, from + part.len()) =~= text.subrange(
                start + from,
                start + from + part.len(),
            ));
        }
        assert(text.skip(start)[from] == text[start + from]);
        if occurs_at(text, part, start + from) {
            lemma_replaced_in_suffix(text, part, other, start, from + part.len());
        } else {
            lemma_replaced_in_suffix(text, part, other, start, from + 1);
        }
    }
}

proof fn lemma_replaced_up_to(
    text: Seq<char>,
    part: Seq<char>,
    other: Seq<char>,
    from: int,
    at: int,
)
    requires
        part.len() > 0,
        0 <= from <= at <= text.len(),
        forall|i: int| from <= i < at ==> !#[trigger] occurs_at(text, part, i),
    ensures
        replaced_from(text, part, other, from) == text.subrange(from, at) + replaced_from(
            text,
            part,
            other,
            at,
        ),
    decreases at - from,
{
    if from < at {
        lemma_replaced_up_to(text, part, other, from + 1, at);
        let tail = replaced_from(text, part, other, at);
        assert(seq![text[from]] + (text.subrange(from + 1, at) + tail) =~= text.subrange(from, at)
            + tail);
    } else {
        assert(text.subrange(from, at) + replaced_from(text, part, other, at) =~= replaced_from(
            text,
            part,
            other,
            at,
        ));
    }
}

/// Text in which the part does not start is kept, and what follows is replaced on its own.
pub proof fn law_replacing_behind_kept_text(
    before: Seq<char>,
    after: Seq<char>,
    part: Seq<char>,
    other: Seq<char>,
)
    requires
        part.len() > 0,
        forall|i: int| 0 <= i < before.len() ==> !#[trigger] occurs_at(before + after, part, i),
    ensures
        replaced(before + after, part, other) == before + replaced(after, part, other),
{
    let text = before + after;
    let at = before.len() as int;
    lemma_replaced_up_to(text, part, other, 0, at);
    lemma_replaced_in_suffix(text, part, other, at, 0);
    assert(text.skip(at) =~= after);
    assert(text.subrange(0, at) =~= before);
}

/// The first occurrence of a part is exchanged for the other, what stands before it is kept, and
/// what follows it is replaced on its own.
pub proof fn law_replacing_goes_left_to_right(
    before: Seq<char>,
    after: Seq<char>,
    part: Seq<char>,
    other: Seq<char>,
)
    requires
        part.len() > 0,
        forall|i: int|
            0 <= i < before.len() ==> !#[trigger] occurs_at(before + part + after, part, i),
    ensures
        replaced(before + part + after, part, other) == before + other + replaced(
            after,
            part,
            other,
        ),
{
    let text = before + part + after;
    let at = before.len() as int;
    law_occurrence_splits_text(text, part, at);
    assert(occurs_at(text, part, at));
    lemma_replaced_up_to(text, part, other, 0, at);
    lemma_replaced_in_suffix(text, part, other, at + part.len(), 0);
    assert(text.skip(at + part.len()) =~= after);
    assert(text.subrange(0, at) =~= before);
    assert(before + (other + replaced(after, part, other)) =~= before + other + replaced(
        after,
        part,
        other,
    ));
}

/// Two lists joined are the first joined, the separator and the second joined; one text joined is
/// that text, and no text is none.
pub proof fn law_joining_lists(
    first: Seq<Seq<char>>,
    second: Seq<Seq<char>>,
    separator: Seq<char>,
)
    ensures
        joined(Seq::empty(), separator) == Seq::<char>::empty(),
        forall|text: Seq<char>| joined(#[trigger] seq![text], separator) == text,
        first.len() > 0 && second.len() > 0 ==> joined(first + second, separator) == joined(
            first,
            separator,
        ) + separator + joined(second, separator),
    decreases second.len(),
{
    if first.len() > 0 && second.len() > 0 {
        assert((first + second).drop_last() =~= first + second.drop_last());
        assert((first + second).last() == second.last());
        if second.len() == 1 {
            assert(first + second.drop_last() =~= first);
        } else {
            law_joining_lists(first, second.drop_last(), separator);
            let head = joined(first, separator);
            let middle = joined(second.drop_last(), separator);
            assert(head + separator + middle + separator + second.last() =~= head + separator + (
            middle + separator + second.last()));
        }
    }
}

/// A copy of the prefix in front makes no difference, and a text that does not start with the
/// prefix is kept.
pub proof fn law_prefix_makes_no_difference(text: Seq<char>, prefix: Seq<char>)
    requires
        prefix.len() > 0,
    ensures
        without_prefixes(prefix + text, prefix) == without_prefixes(text, prefix),
        !prefix.is_prefix_of(text) ==> without_prefixes(text, prefix) == text,
{
    assert((prefix + text).subrange(0, prefix.len() as int) =~= prefix);
    assert(prefix.is_prefix_of(prefix + text));
    assert((prefix + text).skip(prefix.len() as int) =~= text);
}

/// White space by code point.
pub proof fn law_white_space_characters(c: char)
    ensures
        is_white_space(c) <==> {
            let code = c as int;
            9 <= code <= 13 || code == 32 || code == 133 || code == 160 || code == 5760 || 8192
                <= code <= 8202 || code == 8232 || code == 8233 || code == 8239 || code == 8287
                || code == 12288
        },
{
}

/// Whether the text holds white space only.
pub open spec fn is_blank(text: Seq<char>) -> bool {
    forall|i: int| 0 <= i < text.len() ==> is_white_space(#[trigger] text[i])
}

proof fn lemma_trimmed_start_of(space: Seq<char>, rest: Seq<char>)
    requires
        is_blank(space),
        rest.len() > 0 ==> !is_white_space(rest[0]),
    ensures
        trimmed_start(space + rest) == rest,
    decreases space.len(),
{
    let text = space + rest;
    if space.len() > 0 {
        assert(is_white_space(space[0]) && text[0] == space[0]);
        assert(text.skip(1) =~= space.skip(1) + rest);
        assert(is_blank(space.skip(1))) by {
            assert forall|i: int| 0 <= i < space.skip(1).len() implies is_white_space(
                #[trigger] space.skip(1)[i],
            ) by {
                assert(space.skip(1)[i] == space[i + 1]);
            }
        }
        lemma_trimmed_start_of(space.skip(1), rest);
    } else {
        assert(text =~= rest);
    }
}

proof fn lemma_trimmed_end_of(rest: Seq<char>, space: Seq<char>)
    requires
        is_blank(space),
        rest.len() > 0 ==> !is_white_space(rest.last()),
    ensures
        trimmed_end(rest + space) == rest,
    decreases space.len(),
{
    let text = rest + space;
    if space.len() > 0 {
        assert(is_white_space(space[space.len() - 1]) && text.last() == space[space.len() - 1]);
        assert(text.drop_last() =~= rest + space.drop_last());
        lemma_trimmed_end_of(rest, space.drop_last());
    } else {
        assert(text =~= rest);
    }
}

/// White space at the ends is taken off, and nothing else.
pub proof fn law_trimming_takes_off_white_space(
    before: Seq<char>,
    text: Seq<char>,
    after: Seq<char>,
)
    requires
        is_blank(before),
        is_blank(after),
        text.len() > 0 ==> !is_white_space(text[0]) && !is_white_space(text.last()),
    ensures
        trimmed(before + text + after) == text,
{
    if text.len() > 0 {
        assert(before + text + after =~= before + (text + after));
        lemma_trimmed_start_of(before, text + after);
        lemma_trimmed_end_of(text, after);
    } else {
        let all = before + text + after;
        assert forall|i: int| 0 <= i < all.len() implies is_white_space(#[trigger] all[i]) by {
            if i < before.len() {
                assert(all[i] == before[i]);
            } else {
                assert(all[i] == after[i - before.len()]);
            }
        }
        lemma_trimmed_start_of(all, Seq::empty());
        assert(all + Seq::<char>::empty() =~= all);
        assert(text =~= Seq::empty());
    }
}

/// Every text is white space, what trimming leaves of it, and white space.
pub proof fn law_trimmed_text_stands_within(text: Seq<char>)
    ensures
        exists|before: Seq<char>, after: Seq<char>|
            is_blank(before) && is_blank(after) && text == #[trigger] (before + trimmed(text)
                + after),
        trimmed(text).len() > 0 ==> !is_white_space(trimmed(text)[0]) && !is_white_space(
            trimmed(text).last(),
        ),
{
    let start = lemma_split_start(text);
    let rest = text.skip(start);
    let end = lemma_split_end(rest);
    let before = text.take(start);
    let after = rest.skip(end);
    let inner = rest.take(end);
    if inner.len() > 0 {
        assert(inner[0] == rest[0]);
    }
    assert(text =~= before + inner + after);
    law_trimming_takes_off_white_space(before, inner, after);
    assert(text == before + trimmed(text) + after);
}

proof fn lemma_split_start(text: Seq<char>) -> (start: int)
    ensures
        0 <= start <= text.len(),
        is_blank(text.take(start)),
        start < text.len() ==> !is_white_space(text[start]),
    decreases text.len(),
{
    if text.len() > 0 && is_white_space(text[0]) {
        let inner = lemma_split_start(text.skip(1));
        assert forall|i: int| 0 <= i < inner + 1 implies is_white_space(
            #[trigger] text.take(inner + 1)[i],
        ) by {
            if i > 0 {
                assert(text.skip(1).take(inner)[i - 1] == text[i]);
            }
        }
        inner + 1
    } else {
        0
    }
}

proof fn lemma_split_end(text: Seq<char>) -> (end: int)
    ensures
        0 <= end <= text.len(),
        is_blank(text.skip(end)),
        end > 0 ==> !is_white_space(text[end - 1]),
    decreases text.len(),
{
    if text.len() > 0 && is_white_space(text.last()) {
        let end = lemma_split_end(text.drop_last());
        assert forall|i: int| 0 <= i < text.skip(end).len() implies is_white_space(
            #[trigger] text.skip(end)[i],
        ) by {
            if i < text.len() - 1 - end {
                assert(text.drop_last().skip(end)[i] == text[end + i]);
            }
        }
        end
    } else {
        text.len() as int
    }
}

} // verus!
