//! The patterns that feed text is searched with, matched by the `regex` crate.

use regex::Regex;
use vstd::prelude::*;

use crate::text::{characters, is_white_space, texts};

verus! {

/// Whether the character is a hexadecimal digit of either case.
pub open spec fn is_hex(c: char) -> bool {
    '0' <= c <= '9' || 'a' <= c <= 'f' || 'A' <= c <= 'F'
}

/// The value of a hexadecimal digit.
pub open spec fn hex_value(c: char) -> int {
    if '0' <= c <= '9' {
        c as int - '0' as int
    } else if 'a' <= c <= 'f' {
        c as int - 'a' as int + 10
    } else {
        c as int - 'A' as int + 10
    }
}

/// Whether the text starts with a backslash, an `x` and two hexadecimal digits.
pub open spec fn starts_with_hex_escape(text: Seq<char>) -> bool {
    text.len() >= 4 && text[0] == '\\' && text[1] == 'x' && is_hex(text[2]) && is_hex(text[3])
}

/// The character that the escape at the start of the text stands for.
pub open spec fn hex_escape_char(text: Seq<char>) -> char {
    (hex_value(text[2]) * 16 + hex_value(text[3])) as char
}

/// The text with every `\xHH` replaced by the character it stands for, left to right.
pub open spec fn hex_unescaped(text: Seq<char>) -> Seq<char>
    decreases text.len(),
{
    if text.len() == 0 {
        Seq::empty()
    } else if starts_with_hex_escape(text) {
        seq![hex_escape_char(text)] + hex_unescaped(text.skip(4))
    } else {
        seq![text[0]] + hex_unescaped(text.skip(1))
    }
}

/// The text with every run of white space replaced by one space: of a run only the last
/// character stays, as a space.
pub open spec fn spaced(text: Seq<char>) -> Seq<char>
    decreases text.len(),
{
    if text.len() == 0 {
        Seq::empty()
    } else if !is_white_space(text[0]) {
        seq![text[0]] + spaced(text.skip(1))
    } else if text.len() > 1 && is_white_space(text[1]) {
        spaced(text.skip(1))
    } else {
        seq![' '] + spaced(text.skip(1))
    }
}

/// Whether the character is one of the ten that start at `zero`.
pub open spec fn in_ten(c: char, zero: int) -> bool {
    zero <= c as int <= zero + 9
}

/// Whether the character is a decimal number of Unicode (general category `Nd`, version 16).
pub open spec fn is_decimal_number(c: char) -> bool {
    ||| in_ten(c, 0x30) || in_ten(c, 0x660) || in_ten(c, 0x6f0) || in_ten(c, 0x7c0)
    ||| in_ten(c, 0x966) || in_ten(c, 0x9e6) || in_ten(c, 0xa66) || in_ten(c, 0xae6)
    ||| in_ten(c, 0xb66) || in_ten(c, 0xbe6) || in_ten(c, 0xc66) || in_ten(c, 0xce6)
    ||| in_ten(c, 0xd66) || in_ten(c, 0xde6) || in_ten(c, 0xe50) || in_ten(c, 0xed0)
    ||| in_ten(c, 0xf20) || in_ten(c, 0x1040) || in_ten(c, 0x1090) || in_ten(c, 0x17e0)
    ||| in_ten(c, 0x1810) || in_ten(c, 0x1946) || in_ten(c, 0x19d0) || in_ten(c, 0x1a80)
    ||| in_ten(c, 0x1a90) || in_ten(c, 0x1b50) || in_ten(c, 0x1bb0) || in_ten(c, 0x1c40)
    ||| in_ten(c, 0x1c50) || in_ten(c, 0xa620) || in_ten(c, 0xa8d0) || in_ten(c, 0xa900)
    ||| in_ten(c, 0xa9d0) || in_ten(c, 0xa9f0) || in_ten(c, 0xaa50) || in_ten(c, 0xabf0)
    ||| in_ten(c, 0xff10) || in_ten(c, 0x104a0) || in_ten(c, 0x10d30) || in_ten(c, 0x10d40)
    ||| in_ten(c, 0x11066) || in_ten(c, 0x110f0) || in_ten(c, 0x11136) || in_ten(c, 0x111d0)
    ||| in_ten(c, 0x112f0) || in_ten(c, 0x11450) || in_ten(c, 0x114d0) || in_ten(c, 0x11650)
    ||| in_ten(c, 0x116c0) || in_ten(c, 0x116d0) || in_ten(c, 0x116da) || in_ten(c, 0x11730)
    ||| in_ten(c, 0x118e0) || in_ten(c, 0x11950) || in_ten(c, 0x11bf0) || in_ten(c, 0x11c50)
    ||| in_ten(c, 0x11d50) || in_ten(c, 0x11da0) || in_ten(c, 0x11f50) || in_ten(c, 0x16130)
    ||| in_ten(c, 0x16a60) || in_ten(c, 0x16ac0) || in_ten(c, 0x16b50) || in_ten(c, 0x16d70)
    ||| in_ten(c, 0x1ccf0) || in_ten(c, 0x1d7ce) || in_ten(c, 0x1d7d8) || in_ten(c, 0x1d7e2)
    ||| in_ten(c, 0x1d7ec) || in_ten(c, 0x1d7f6) || in_ten(c, 0x1e140) || in_ten(c, 0x1e2f0)
    ||| in_ten(c, 0x1e4f0) || in_ten(c, 0x1e5f1) || in_ten(c, 0x1e950) || in_ten(c, 0x1fbf0)
}

/// How many characters at the start of the text are decimal numbers.
pub open spec fn run_length(text: Seq<char>) -> int
    decreases text.len(),
{
    if text.len() > 0 && is_decimal_number(text[0]) {
        1 + run_length(text.skip(1))
    } else {
        0
    }
}

/// A run is no longer than the text.
pub proof fn lemma_run_length(text: Seq<char>)
    ensures
        0 <= run_length(text) <= text.len(),
    decreases text.len(),
{
    if text.len() > 0 && is_decimal_number(text[0]) {
        lemma_run_length(text.skip(1));
    }
}

/// The longest runs of decimal numbers in the text, in order.
pub open spec fn number_runs(text: Seq<char>) -> Seq<Seq<char>>
    decreases text.len(),
{
    if text.len() == 0 {
        Seq::empty()
    } else if is_decimal_number(text[0]) {
        proof {
            lemma_run_length(text);
            lemma_run_length(text.skip(1));
        }
        seq![text.take(run_length(text))] + number_runs(text.skip(run_length(text)))
    } else {
        number_runs(text.skip(1))
    }
}

fn hex_digit(c: char) -> (r: u8)
    requires
        is_hex(c),
    ensures
        r == hex_value(c),
        r < 16,
{
    if '0' <= c && c <= '9' {
        c as u8 - '0' as u8
    } else if 'a' <= c && c <= 'f' {
        c as u8 - 'a' as u8 + 10
    } else {
        c as u8 - 'A' as u8 + 10
    }
}

fn is_hex_digit(c: char) -> (r: bool)
    ensures
        r == is_hex(c),
{
    ('0' <= c && c <= '9') || ('a' <= c && c <= 'f') || ('A' <= c && c <= 'F')
}

/// What a matched escape is replaced by: the one character that it stands for. Text that is
/// no escape is kept.
pub fn decode_hex_escape(escape: &str) -> (r: String)
    ensures
        escape@.len() == 4 && starts_with_hex_escape(escape@) ==> r@ == seq![
            hex_escape_char(escape@),
        ],
        !(escape@.len() == 4 && starts_with_hex_escape(escape@)) ==> r@ == escape@,
{
    let list = characters(escape);
    if list.len() == 4 && list[0] == '\\' && list[1] == 'x' && is_hex_digit(list[2])
        && is_hex_digit(list[3]) {
        let mut out = String::new();
        out.push((hex_digit(list[2]) * 16 + hex_digit(list[3])) as char);
        out
    } else {
        escape.to_owned()
    }
}

/// `Regex::replace_all` for the pattern `\\x[0-9a-fA-F]{2}`: the matches are the escapes,
/// taken left to right without overlap, each is replaced by what [`decode_hex_escape`] makes
/// of it, and the text between them is kept.
#[verifier::external_body]
pub(crate) fn replace_hex_escapes(text: &str) -> (r: String)
    ensures
        r@ == hex_unescaped(text@),
{
    Regex::new(r"\\x[0-9a-fA-F]{2}")
        .expect("hex escape regex")
        .replace_all(text, |caps: &regex::Captures| decode_hex_escape(&caps[0]))
        .into_owned()
}

/// `Regex::replace_all` for the pattern `\s+` and a space: `\s` is the Unicode property
/// `White_Space`, and each longest run of it becomes one space.
#[verifier::external_body]
pub(crate) fn replace_space_runs(text: &str) -> (r: String)
    ensures
        r@ == spaced(text@),
{
    Regex::new(r"\s+").expect("whitespace regex").replace_all(text, " ").into_owned()
}

/// `Regex::find_iter` for the pattern `\d+`: `\d` is the Unicode category `Nd`, and the
/// matches are its longest runs, in order.
#[verifier::external_body]
pub(crate) fn find_number_runs(text: &str) -> (r: Vec<String>)
    ensures
        texts(r@) == number_runs(text@),
{
    let pattern = Regex::new(r"\d+").expect("digit regex");
    pattern.find_iter(text).map(|found| found.as_str().to_owned()).collect()
}

/// Of the ASCII characters, the ten digits are decimal numbers and no others.
pub proof fn law_ascii_decimal_numbers(c: char)
    requires
        (c as int) < 128,
    ensures
        is_decimal_number(c) <==> '0' <= c <= '9',
{
}

/// Digits that follow text without numbers are a run of their own, whole and unchanged, and the
/// runs behind them are those of what follows.
pub proof fn law_runs_are_found_in_order(before: Seq<char>, run: Seq<char>, after: Seq<char>)
    requires
        forall|i: int| 0 <= i < before.len() ==> !is_decimal_number(#[trigger] before[i]),
        run.len() > 0,
        forall|i: int| 0 <= i < run.len() ==> is_decimal_number(#[trigger] run[i]),
        after.len() > 0 ==> !is_decimal_number(after[0]),
    ensures
        number_runs(before) == Seq::<Seq<char>>::empty(),
        number_runs(before + run + after) == seq![run] + number_runs(after),
{
    lemma_runs_behind(before, Seq::empty());
    assert(before + Seq::<char>::empty() =~= before);
    lemma_runs_behind(before, run + after);
    assert(before + run + after =~= before + (run + after));
    lemma_run_is_measured(run, after);
    assert((run + after)[0] == run[0]);
    assert((run + after).take(run.len() as int) =~= run);
    assert((run + after).skip(run.len() as int) =~= after);
}

proof fn lemma_runs_behind(before: Seq<char>, rest: Seq<char>)
    requires
        forall|i: int| 0 <= i < before.len() ==> !is_decimal_number(#[trigger] before[i]),
    ensures
        number_runs(before + rest) == number_runs(rest),
    decreases before.len(),
{
    if before.len() > 0 {
        assert((before + rest)[0] == before[0]);
        assert((before + rest).skip(1) =~= before.skip(1) + rest);
        assert forall|i: int| 0 <= i < before.skip(1).len() implies !is_decimal_number(
            #[trigger] before.skip(1)[i],
        ) by {
            assert(before.skip(1)[i] == before[i + 1]);
        }
        lemma_runs_behind(before.skip(1), rest);
    } else {
        assert(before + rest =~= rest);
    }
}

proof fn lemma_run_is_measured(run: Seq<char>, after: Seq<char>)
    requires
        forall|i: int| 0 <= i < run.len() ==> is_decimal_number(#[trigger] run[i]),
        after.len() > 0 ==> !is_decimal_number(after[0]),
    ensures
        run_length(run + after) == run.len(),
    decreases run.len(),
{
    if run.len() > 0 {
        assert((run + after)[0] == run[0]);
        assert((run + after).skip(1) =~= run.skip(1) + after);
        assert forall|i: int| 0 <= i < run.skip(1).len() implies is_decimal_number(
            #[trigger] run.skip(1)[i],
        ) by {
            assert(run.skip(1)[i] == run[i + 1]);
        }
        lemma_run_is_measured(run.skip(1), after);
    } else {
        assert(run + after =~= after);
    }
}

/// `\xHH` becomes the character with that number, and what follows is decoded on its own.
pub proof fn law_hex_escapes_are_decoded(
    before: Seq<char>,
    high: int,
    low: int,
    escape: Seq<char>,
    after: Seq<char>,
)
    requires
        !before.contains('\\'),
        0 <= high < 16,
        0 <= low < 16,
        escape.len() == 4,
        escape[0] == '\\',
        escape[1] == 'x',
        escape[2] == "0123456789abcdef"@[high] || escape[2] == "0123456789ABCDEF"@[high],
        escape[3] == "0123456789abcdef"@[low] || escape[3] == "0123456789ABCDEF"@[low],
    ensures
        hex_unescaped(before + escape + after) == before + seq![(16 * high + low) as char]
            + hex_unescaped(after),
{
    reveal_strlit("0123456789abcdef");
    reveal_strlit("0123456789ABCDEF");
    law_text_before_escapes_is_kept(before, escape + after);
    assert(before + escape + after =~= before + (escape + after));
    let rest = escape + after;
    assert(rest[0] == escape[0] && rest[1] == escape[1] && rest[2] == escape[2] && rest[3]
        == escape[3]);
    assert(rest.skip(4) =~= after);
    assert(hex_value(escape[2]) == high && hex_value(escape[3]) == low);
    let c = (16 * high + low) as char;
    assert(before + (seq![c] + hex_unescaped(after)) =~= before + seq![c] + hex_unescaped(after));
}

/// Text without a backslash is kept, and what follows it is decoded on its own.
pub proof fn law_text_before_escapes_is_kept(before: Seq<char>, rest: Seq<char>)
    requires
        !before.contains('\\'),
    ensures
        hex_unescaped(before + rest) == before + hex_unescaped(rest),
    decreases before.len(),
{
    let text = before + rest;
    if before.len() > 0 {
        assert(before.contains(before[0]));
        assert(text[0] == before[0]);
        assert(text.skip(1) =~= before.skip(1) + rest);
        assert(!before.skip(1).contains('\\')) by {
            if before.skip(1).contains('\\') {
                let k = choose|k: int| 0 <= k < before.skip(1).len() && before.skip(1)[k] == '\\';
                assert(before[k + 1] == '\\');
            }
        }
        law_text_before_escapes_is_kept(before.skip(1), rest);
        assert(seq![before[0]] + (before.skip(1) + hex_unescaped(rest)) =~= before
            + hex_unescaped(rest));
    } else {
        assert(text =~= rest);
        assert(before + hex_unescaped(rest) =~= hex_unescaped(rest));
    }
}

/// A backslash that starts no `\xHH` is kept, and what follows it is decoded on its own.
pub proof fn law_other_backslashes_are_kept(after: Seq<char>)
    requires
        after.len() < 3 || after[0] != 'x' || !is_hex(after[1]) || !is_hex(after[2]),
    ensures
        hex_unescaped(seq!['\\'] + after) == seq!['\\'] + hex_unescaped(after),
        forall|c: char|
            is_hex(c) <==> "0123456789abcdefABCDEF"@.contains(c),
{
    reveal_strlit("0123456789abcdefABCDEF");
    let text = seq!['\\'] + after;
    assert(text.skip(1) =~= after);
    if text.len() >= 4 {
        assert(text[1] == after[0] && text[2] == after[1] && text[3] == after[2]);
    }
    let digits = "0123456789abcdefABCDEF"@;
    assert forall|c: char| is_hex(c) <==> digits.contains(c) by {
        if is_hex(c) {
            let k = if c <= '9' {
                c as int - '0' as int
            } else if c >= 'a' {
                c as int - 'a' as int + 10
            } else {
                c as int - 'A' as int + 16
            };
            assert(digits[k] == c);
        }
    }
}

} // verus!
