//! Collapsing white space: none at the ends, and one space for every run of it.

use vstd::prelude::*;

use crate::patterns::{replace_space_runs, spaced};
use crate::text::{
    is_blank, is_white_space, law_trimmed_text_stands_within, law_trimming_takes_off_white_space,
    trim, trimmed, trimmed_end, trimmed_start,
};

verus! {

/// The text without white space at its ends and with every inner run of it as one space.
pub open spec fn collapsed(input: Seq<char>) -> Seq<char> {
    spaced(trimmed(input))
}

/// Trims the text and turns every run of white space into one space.
pub fn collapse_whitespace(input: &str) -> (r: String)
    ensures
        r@ == collapsed(input@),
{
    let inner = trim(input);
    replace_space_runs(inner.as_str())
}

/// Whether the text has no white space at its ends, no two white-space characters side by side,
/// and none but plain spaces.
pub open spec fn is_collapsed(text: Seq<char>) -> bool {
    &&& text.len() > 0 ==> !is_white_space(text[0]) && !is_white_space(text.last())
    &&& is_spaced(text)
}

/// Whether the text has no two white-space characters side by side, and none but plain spaces.
pub open spec fn is_spaced(text: Seq<char>) -> bool {
    &&& forall|i: int| 0 <= i < text.len() && is_white_space(#[trigger] text[i]) ==> text[i] == ' '
    &&& forall|i: int, j: int|
        0 <= i && j == i + 1 && j < text.len() ==> !(is_white_space(#[trigger] text[i])
            && is_white_space(#[trigger] text[j]))
}

/// Every character of `part` is a space or a character of `text`.
pub open spec fn made_of(part: Seq<char>, text: Seq<char>) -> bool {
    forall|i: int| 0 <= i < part.len() ==> part[i] == ' ' || text.contains(#[trigger] part[i])
}

proof fn lemma_made_of_trans(a: Seq<char>, b: Seq<char>, c: Seq<char>)
    requires
        made_of(a, b),
        made_of(b, c),
    ensures
        made_of(a, c),
{
    assert forall|i: int| 0 <= i < a.len() implies a[i] == ' ' || c.contains(#[trigger] a[i]) by {
        if a[i] != ' ' {
            let k = choose|k: int| 0 <= k < b.len() && b[k] == a[i];
            assert(b[k] == ' ' || c.contains(b[k]));
        }
    }
}

proof fn lemma_spaced(text: Seq<char>)
    ensures
        is_spaced(spaced(text)),
        made_of(spaced(text), text),
        text.len() > 0 ==> spaced(text).len() > 0,
        text.len() > 0 ==> is_white_space(spaced(text)[0]) == is_white_space(text[0]),
        text.len() > 0 ==> is_white_space(spaced(text).last()) == is_white_space(text.last()),
    decreases text.len(),
{
    if text.len() > 0 {
        let rest = text.skip(1);
        lemma_spaced(rest);
        let tail = spaced(rest);
        let whole = spaced(text);
        assert forall|i: int| 0 <= i < whole.len() implies whole[i] == ' ' || text.contains(
            #[trigger] whole[i],
        ) by {
            if whole.len() == tail.len() + 1 && i == 0 {
                assert(text[0] == whole[0] || whole[0] == ' ');
            } else {
                let k = if whole.len() == tail.len() + 1 {
                    i - 1
                } else {
                    i
                };
                assert(tail[k] == whole[i]);
                if tail[k] != ' ' {
                    let m = choose|m: int| 0 <= m < rest.len() && rest[m] == tail[k];
                    assert(text[m + 1] == whole[i]);
                }
            }
        }
        if is_white_space(text[0]) && rest.len() > 0 && is_white_space(rest[0]) {
            assert(whole == tail);
        } else {
            assert(whole.len() == tail.len() + 1);
            assert(forall|i: int| 1 <= i < whole.len() ==> whole[i] == #[trigger] tail[i - 1]);
            assert forall|i: int, j: int|
                0 <= i && j == i + 1 && j < whole.len() implies !(is_white_space(
                #[trigger] whole[i],
            ) && is_white_space(#[trigger] whole[j])) by {
                if i > 0 {
                    assert(whole[i] == tail[i - 1] && whole[j] == tail[j - 1]);
                } else {
                    assert(whole[1] == tail[0]);
                }
            }
            assert forall|i: int|
                0 <= i < whole.len() && is_white_space(#[trigger] whole[i]) implies whole[i]
                == ' ' by {
                if i > 0 {
                    assert(whole[i] == tail[i - 1]);
                }
            }
        }
    }
}

proof fn lemma_trimmed_start(text: Seq<char>)
    ensures
        trimmed_start(text).len() > 0 ==> !is_white_space(trimmed_start(text)[0]),
        made_of(trimmed_start(text), text),
    decreases text.len(),
{
    if text.len() > 0 && is_white_space(text[0]) {
        lemma_trimmed_start(text.skip(1));
        assert(made_of(text.skip(1), text)) by {
            assert forall|i: int| 0 <= i < text.skip(1).len() implies text.contains(
                #[trigger] text.skip(1)[i],
            ) by {
                assert(text.skip(1)[i] == text[i + 1]);
            }
        }
        lemma_made_of_trans(trimmed_start(text), text.skip(1), text);
    }
}

proof fn lemma_trimmed_end(text: Seq<char>)
    ensures
        trimmed_end(text).len() > 0 ==> !is_white_space(trimmed_end(text).last())
            && trimmed_end(text)[0] == text[0],
        made_of(trimmed_end(text), text),
    decreases text.len(),
{
    if text.len() > 0 && is_white_space(text.last()) {
        lemma_trimmed_end(text.drop_last());
        assert(made_of(text.drop_last(), text)) by {
            assert forall|i: int| 0 <= i < text.drop_last().len() implies text.contains(
                #[trigger] text.drop_last()[i],
            ) by {
                assert(text.drop_last()[i] == text[i]);
            }
        }
        lemma_made_of_trans(trimmed_end(text), text.drop_last(), text);
    }
}

proof fn lemma_spaced_keeps(text: Seq<char>)
    requires
        is_spaced(text),
    ensures
        spaced(text) == text,
    decreases text.len(),
{
    if text.len() > 0 {
        let rest = text.skip(1);
        assert forall|i: int, j: int|
            0 <= i && j == i + 1 && j < rest.len() implies !(is_white_space(#[trigger] rest[i])
            && is_white_space(#[trigger] rest[j])) by {
            assert(rest[i] == text[i + 1] && rest[j] == text[j + 1]);
        }
        assert(is_spaced(rest));
        lemma_spaced_keeps(rest);
        if text.len() > 1 {
            assert(!(is_white_space(text[0]) && is_white_space(text[1])));
        }
        assert(seq![text[0]] + rest =~= text);
    }
}

/// Collapsing brings in no character but the space.
pub proof fn law_collapsing_adds_nothing(input: Seq<char>)
    ensures
        made_of(collapsed(input), input),
{
    lemma_trimmed_start(input);
    lemma_trimmed_end(trimmed_start(input));
    lemma_spaced(trimmed(input));
    lemma_made_of_trans(trimmed(input), trimmed_start(input), input);
    lemma_made_of_trans(collapsed(input), trimmed(input), input);
}

/// Collapsed text has no white space at its ends, no two white-space characters side by side and
/// none but plain spaces; collapsing it again changes nothing.
pub proof fn law_collapsed_text(input: Seq<char>)
    ensures
        is_collapsed(collapsed(input)),
        collapsed(collapsed(input)) == collapsed(input),
{
    lemma_trimmed_start(input);
    lemma_trimmed_end(trimmed_start(input));
    lemma_spaced(trimmed(input));
    law_collapsed_is_kept(collapsed(input));
}

/// Text that is collapsed already is kept as it is.
pub proof fn law_collapsed_is_kept(text: Seq<char>)
    requires
        is_collapsed(text),
    ensures
        collapsed(text) == text,
{
    lemma_spaced_keeps(text);
}

/// Whether the text holds at least one character and no white space.
pub open spec fn is_word(text: Seq<char>) -> bool {
    text.len() > 0 && forall|i: int| 0 <= i < text.len() ==> !is_white_space(#[trigger] text[i])
}

proof fn lemma_spaced_run(space: Seq<char>, rest: Seq<char>)
    requires
        space.len() > 0,
        is_blank(space),
        rest.len() > 0,
        !is_white_space(rest[0]),
    ensures
        spaced(space + rest) == seq![' '] + spaced(rest),
    decreases space.len(),
{
    let text = space + rest;
    assert(is_white_space(space[0]) && text[0] == space[0]);
    if space.len() > 1 {
        assert(is_white_space(space[1]) && text[1] == space[1]);
        assert(text.skip(1) =~= space.skip(1) + rest);
        assert(is_blank(space.skip(1))) by {
            assert forall|i: int| 0 <= i < space.skip(1).len() implies is_white_space(
                #[trigger] space.skip(1)[i],
            ) by {
                assert(space.skip(1)[i] == space[i + 1]);
            }
        }
        lemma_spaced_run(space.skip(1), rest);
    } else {
        assert(text.skip(1) =~= rest);
        assert(text[1] == rest[0]);
    }
}

proof fn lemma_spaced_behind_word(word: Seq<char>, rest: Seq<char>)
    requires
        forall|i: int| 0 <= i < word.len() ==> !is_white_space(#[trigger] word[i]),
    ensures
        spaced(word + rest) == word + spaced(rest),
    decreases word.len(),
{
    let text = word + rest;
    if word.len() > 0 {
        assert(text[0] == word[0]);
        assert(text.skip(1) =~= word.skip(1) + rest);
        assert forall|i: int| 0 <= i < word.skip(1).len() implies !is_white_space(
            #[trigger] word.skip(1)[i],
        ) by {
            assert(word.skip(1)[i] == word[i + 1]);
        }
        lemma_spaced_behind_word(word.skip(1), rest);
        assert(seq![word[0]] + (word.skip(1) + spaced(rest)) =~= word + spaced(rest));
    } else {
        assert(text =~= rest);
        assert(word + spaced(rest) =~= spaced(rest));
    }
}

proof fn lemma_blank_sum(a: Seq<char>, b: Seq<char>)
    requires
        is_blank(a),
        is_blank(b),
    ensures
        is_blank(a + b),
{
    assert forall|i: int| 0 <= i < (a + b).len() implies is_white_space(#[trigger] (a + b)[i]) by {
        if i < a.len() {
            assert((a + b)[i] == a[i]);
        } else {
            assert((a + b)[i] == b[i - a.len()]);
        }
    }
}

/// White space around a text makes no difference.
pub proof fn law_collapsing_ignores_the_ends(before: Seq<char>, text: Seq<char>, after: Seq<char>)
    requires
        is_blank(before),
        is_blank(after),
    ensures
        collapsed(before + text + after) == collapsed(text),
{
    law_trimmed_text_stands_within(text);
    let inner = trimmed(text);
    let (b, a) = choose|b: Seq<char>, a: Seq<char>|
        is_blank(b) && is_blank(a) && text == #[trigger] (b + inner + a);
    lemma_blank_sum(before, b);
    lemma_blank_sum(a, after);
    law_trimming_takes_off_white_space(before + b, inner, a + after);
    assert(before + text + after =~= (before + b) + inner + (a + after));
}

/// A word is kept whole, and where more follows it behind white space, one space stands between.
pub proof fn law_words_are_kept(word: Seq<char>, space: Seq<char>, text: Seq<char>)
    requires
        is_word(word),
        space.len() > 0,
        is_blank(space),
    ensures
        collapsed(word) == word,
        collapsed(word + space + text) == if collapsed(text).len() == 0 {
            word
        } else {
            word + seq![' '] + collapsed(text)
        },
{
    lemma_spaced_behind_word(word, Seq::empty());
    assert(word + Seq::<char>::empty() =~= word);
    let none = Seq::<char>::empty();
    law_trimming_takes_off_white_space(none, word, none);
    assert(none + word + none =~= word);
    law_trimmed_text_stands_within(text);
    let inner = trimmed(text);
    let (b, a) = choose|b: Seq<char>, a: Seq<char>|
        is_blank(b) && is_blank(a) && text == #[trigger] (b + inner + a);
    lemma_spaced(inner);
    lemma_blank_sum(space, b);
    if inner.len() == 0 {
        lemma_blank_sum(space + b, a);
        law_trimming_takes_off_white_space(none, word, space + b + a);
        assert(none + word + (space + b + a) =~= word + space + text);
    } else {
        let core = word + (space + b) + inner;
        assert(core[0] == word[0]);
        law_trimming_takes_off_white_space(none, core, a);
        assert(none + core + a =~= word + space + text);
        lemma_spaced_run(space + b, inner);
        assert(core =~= word + ((space + b) + inner));
        lemma_spaced_behind_word(word, (space + b) + inner);
        assert(word + (seq![' '] + spaced(inner)) =~= word + seq![' '] + spaced(inner));
    }
}

} // verus!
