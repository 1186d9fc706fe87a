//! Checkpoints of the supplement scan: a fixed prefix and a decimal offset.

use vstd::prelude::*;

use crate::numbers::{
    decimal, decimal_string, integer_within, law_decimal_reads_back, parse_integer, written_integer,
};
use crate::text::{characters, matches_at, starts_with, string_of};

verus! {

/// What every checkpoint of the supplement scan starts with.
pub const SUPPLEMENT_CHECKPOINT_PREFIX: &'static str = "feeds2:offset=";

/// The checkpoint of an offset.
pub open spec fn checkpoint_of(offset: int) -> Seq<char> {
    SUPPLEMENT_CHECKPOINT_PREFIX@ + decimal(offset)
}

/// Whether the cursor starts as a checkpoint does.
pub open spec fn is_checkpoint(cursor: Seq<char>) -> bool {
    SUPPLEMENT_CHECKPOINT_PREFIX@.is_prefix_of(cursor)
}

/// The offset that a checkpoint holds: a non-negative 64-bit integer behind the prefix, with
/// an optional sign.
pub open spec fn offset_of(cursor: Seq<char>) -> Option<int> {
    if is_checkpoint(cursor) {
        integer_within(
            cursor.skip(SUPPLEMENT_CHECKPOINT_PREFIX@.len() as int),
            0,
            i64::MAX as int,
        )
    } else {
        None
    }
}

/// The offset that a cursor holds, `None` if it is no checkpoint or holds no such offset.
pub fn parse_supplement_checkpoint(cursor: &str) -> (r: Option<i64>)
    ensures
        match r {
            Some(offset) => offset_of(cursor@) == Some(offset as int),
            None => offset_of(cursor@) is None,
        },
{
    let list = characters(cursor);
    let prefix = characters(SUPPLEMENT_CHECKPOINT_PREFIX);
    if !matches_at(&list, &prefix, 0) {
        return None;
    }
    let value = string_of(&list, prefix.len(), list.len());
    assert(value@ =~= cursor@.skip(SUPPLEMENT_CHECKPOINT_PREFIX@.len() as int));
    let digits = characters(value.as_str());
    match parse_integer(&digits, i64::MIN, i64::MAX) {
        Some(offset) => if offset >= 0 {
            Some(offset)
        } else {
            None
        },
        None => None,
    }
}

/// The checkpoint of an offset.
pub fn format_supplement_checkpoint(offset: i64) -> (r: String)
    ensures
        r@ == checkpoint_of(offset as int),
{
    let mut text = SUPPLEMENT_CHECKPOINT_PREFIX.to_owned();
    text.append(decimal_string(offset).as_str());
    text
}

/// Whether a cursor is a checkpoint of the supplement scan, whatever stands behind the prefix.
pub fn is_supplement_checkpoint(cursor: &str) -> (r: bool)
    ensures
        r == is_checkpoint(cursor@),
{
    starts_with(cursor, SUPPLEMENT_CHECKPOINT_PREFIX)
}

/// A formatted checkpoint is recognised, and parsing it gives the offset back; a negative
/// offset is recognised but not given back.
pub proof fn law_checkpoint_reads_back(offset: int)
    requires
        i64::MIN <= offset <= i64::MAX,
    ensures
        is_checkpoint(checkpoint_of(offset)),
        offset >= 0 ==> offset_of(checkpoint_of(offset)) == Some(offset),
        offset < 0 ==> offset_of(checkpoint_of(offset)) is None,
{
    let cursor = checkpoint_of(offset);
    assert(cursor.skip(SUPPLEMENT_CHECKPOINT_PREFIX@.len() as int) =~= decimal(offset));
    law_decimal_reads_back(offset, 0, i64::MAX as int);
}

/// Only checkpoints hold an offset, and none is negative.
pub proof fn law_offset_needs_checkpoint(cursor: Seq<char>)
    ensures
        offset_of(cursor) is Some ==> is_checkpoint(cursor) && 0 <= offset_of(cursor).unwrap()
            <= i64::MAX,
{
}

/// A cursor is a checkpoint if it is the prefix and something behind it; the offset is the
/// integer that is written there, unless it is negative or too large.
pub proof fn law_checkpoint_is_prefix_and_offset(cursor: Seq<char>, text: Seq<char>)
    ensures
        is_checkpoint("feeds2:offset="@ + text),
        is_checkpoint(cursor) ==> cursor == "feeds2:offset="@ + cursor.skip(14),
        offset_of("feeds2:offset="@ + text) == match written_integer(text) {
            Some(n) if 0 <= n <= i64::MAX => Some(n),
            _ => None,
        },
        forall|offset: int| #[trigger] checkpoint_of(offset) == "feeds2:offset="@ + decimal(offset),
{
    reveal_strlit("feeds2:offset=");
    let whole = "feeds2:offset="@ + text;
    assert(whole.subrange(0, 14) =~= "feeds2:offset="@);
    assert(whole.skip(14) =~= text);
    if is_checkpoint(cursor) {
        assert(cursor =~= "feeds2:offset="@ + cursor.skip(14));
    }
}

} // verus!
