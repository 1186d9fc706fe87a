//! Integers as text: decimal both ways, and fixed-width hexadecimal.

use vstd::prelude::*;

verus! {

/// The decimal digit of a value below ten.
pub open spec fn digit_char(value: int) -> char {
    ('0' as int + value) as char
}

/// The lower-case hexadecimal digit of a value below sixteen.
pub open spec fn hex_char(value: int) -> char {
    if value < 10 {
        digit_char(value)
    } else {
        ('a' as int + value - 10) as char
    }
}

/// Decimal notation of a natural number, without leading zeros.
pub open spec fn decimal_digits(n: int) -> Seq<char>
    decreases n,
{
    if n < 10 {
        seq![digit_char(n)]
    } else {
        decimal_digits(n / 10).push(digit_char(n % 10))
    }
}

/// Decimal notation of an integer.
pub open spec fn decimal(n: int) -> Seq<char> {
    if n < 0 {
        seq!['-'] + decimal_digits(-n)
    } else {
        decimal_digits(n)
    }
}

/// The last `width` hexadecimal digits of `n`.
pub open spec fn hex_digits(n: int, width: nat) -> Seq<char>
    decreases width,
{
    if width == 0 {
        Seq::empty()
    } else {
        hex_digits(n / 16, (width - 1) as nat).push(hex_char(n % 16))
    }
}

/// Whether the character is an ASCII digit.
pub open spec fn is_digit(c: char) -> bool {
    '0' <= c <= '9'
}

/// Whether every character is an ASCII digit.
pub open spec fn all_digits(text: Seq<char>) -> bool {
    forall|i: int| 0 <= i < text.len() ==> is_digit(#[trigger] text[i])
}

/// The number that a run of ASCII digits writes.
pub open spec fn digits_value(text: Seq<char>) -> int
    decreases text.len(),
{
    if text.len() == 0 {
        0
    } else {
        digits_value(text.drop_last()) * 10 + (text.last() as int - '0' as int)
    }
}

/// Whether the text starts with a sign.
pub open spec fn has_sign(text: Seq<char>) -> bool {
    text.len() > 0 && (text[0] == '-' || text[0] == '+')
}

/// What follows the sign, if there is one.
pub open spec fn unsigned_part(text: Seq<char>) -> Seq<char> {
    if has_sign(text) {
        text.skip(1)
    } else {
        text
    }
}

/// The integer that `text` writes: an optional sign, then ASCII digits only and at least one.
pub open spec fn written_integer(text: Seq<char>) -> Option<int> {
    let digits = unsigned_part(text);
    if digits.len() == 0 || !all_digits(digits) {
        None
    } else if text[0] == '-' {
        Some(-digits_value(digits))
    } else {
        Some(digits_value(digits))
    }
}

/// The integer that `text` writes, if it lies between `min` and `max`.
pub open spec fn integer_within(text: Seq<char>, min: int, max: int) -> Option<int> {
    match written_integer(text) {
        Some(n) if min <= n <= max => Some(n),
        _ => None,
    }
}

proof fn lemma_digits_value_grows(text: Seq<char>, from: int)
    requires
        all_digits(text),
        0 <= from <= text.len(),
    ensures
        0 <= digits_value(text.take(from)) <= digits_value(text),
    decreases text.len(),
{
    if from == text.len() {
        assert(text.take(from) =~= text);
        if text.len() > 0 {
            assert(all_digits(text.drop_last()));
            lemma_digits_value_grows(text.drop_last(), text.len() - 1);
        }
    } else {
        assert(all_digits(text.drop_last()));
        lemma_digits_value_grows(text.drop_last(), from);
        assert(text.drop_last().take(from) =~= text.take(from));
    }
}

/// Appends the decimal notation of `n`.
pub fn push_decimal(out: &mut String, n: u64)
    ensures
        final(out)@ == old(out)@ + decimal_digits(n as int),
    decreases n,
{
    if n >= 10 {
        push_decimal(out, n / 10);
    }
    out.push(('0' as u8 + (n % 10) as u8) as char);
    assert(out@ =~= old(out)@ + decimal_digits(n as int));
}

/// The decimal notation of `n`.
pub fn decimal_string(n: i64) -> (r: String)
    ensures
        r@ == decimal(n as int),
{
    let mut out = String::new();
    if n < 0 {
        out.push('-');
        push_decimal(&mut out, (-(n as i128)) as u64);
    } else {
        push_decimal(&mut out, n as u64);
    }
    assert(out@ =~= decimal(n as int));
    out
}

/// Appends the last `width` hexadecimal digits of `n`.
pub fn push_hex(out: &mut String, n: u64, width: u32)
    ensures
        final(out)@ == old(out)@ + hex_digits(n as int, width as nat),
    decreases width,
{
    if width > 0 {
        push_hex(out, n / 16, width - 1);
        let value: u8 = (n % 16) as u8;
        if value < 10 {
            out.push(('0' as u8 + value) as char);
        } else {
            out.push(('a' as u8 + (value - 10)) as char);
        }
    }
    assert(out@ =~= old(out)@ + hex_digits(n as int, width as nat));
}

/// The integer that the characters write, if it lies between `min` and `max`.
pub fn parse_integer(text: &Vec<char>, min: i64, max: i64) -> (r: Option<i64>)
    requires
        min <= 0 <= max,
    ensures
        match r {
            Some(n) => integer_within(text@, min as int, max as int) == Some(n as int),
            None => integer_within(text@, min as int, max as int) is None,
        },
{
    let negative: bool = text.len() > 0 && text[0] == '-';
    let start: usize = if text.len() > 0 && (text[0] == '-' || text[0] == '+') {
        1
    } else {
        0
    };
    let ghost digits = unsigned_part(text@);
    if text.len() == start {
        return None;
    }
    let limit: i128 = if negative {
        -(min as i128)
    } else {
        max as i128
    };
    let mut value: i128 = 0;
    let mut i: usize = start;
    while i < text.len()
        invariant
            start <= i <= text@.len(),
            start == 0 || start == 1,
            digits == text@.skip(start as int),
            digits == unsigned_part(text@),
            digits.len() > 0,
            negative == (text@[0] == '-'),
            min <= 0 <= max,
            limit == if negative {
                -(min as int)
            } else {
                max as int
            },
            0 <= limit <= 0x8000_0000_0000_0000,
            0 <= value <= limit,
            forall|k: int| 0 <= k < i - start ==> is_digit(#[trigger] digits[k]),
            value == digits_value(digits.take(i - start)),
        decreases text@.len() - i,
    {
        let c: char = text[i];
        assert(c == digits[i - start]);
        if c < '0' || c > '9' {
            return None;
        }
        value = value * 10 + (c as i128 - '0' as i128);
        i = i + 1;
        proof {
            let prefix = digits.take(i - start);
            assert(prefix.drop_last() =~= digits.take(i - start - 1));
            if all_digits(digits) {
                lemma_digits_value_grows(digits, i - start);
            }
        }
        if value > limit {
            return None;
        }
    }
    assert(digits.take(i - start) =~= digits);
    if negative {
        Some((-value) as i64)
    } else {
        Some(value as i64)
    }
}

proof fn lemma_decimal_digits(n: int)
    requires
        n >= 0,
    ensures
        decimal_digits(n).len() > 0,
        all_digits(decimal_digits(n)),
        digits_value(decimal_digits(n)) == n,
    decreases n,
{
    if n < 10 {
        reveal_with_fuel(digits_value, 2);
    } else {
        lemma_decimal_digits(n / 10);
        assert(decimal_digits(n).drop_last() =~= decimal_digits(n / 10));
    }
}

/// Reading a number's decimal notation gives the number.
pub proof fn law_decimal_reads_back(n: int, min: int, max: int)
    ensures
        written_integer(decimal(n)) == Some(n),
        min <= n <= max ==> integer_within(decimal(n), min, max) == Some(n),
{
    if n < 0 {
        lemma_decimal_digits(-n);
        assert(decimal(n).skip(1) =~= decimal_digits(-n));
    } else {
        lemma_decimal_digits(n);
        assert(is_digit(decimal(n)[0]));
    }
}

/// Different numbers have different decimal notations.
pub proof fn law_decimal_is_injective(a: int, b: int)
    requires
        decimal(a) == decimal(b),
    ensures
        a == b,
{
    law_decimal_reads_back(a, a, a);
    law_decimal_reads_back(b, b, b);
}

/// Fixed-width hexadecimal has the width asked for and lower-case digits only.
pub proof fn law_hex_shape(n: int, width: nat)
    requires
        n >= 0,
    ensures
        hex_digits(n, width).len() == width,
        forall|i: int|
            0 <= i < width ==> is_digit(#[trigger] hex_digits(n, width)[i]) || 'a' <= hex_digits(
                n,
                width,
            )[i] <= 'f',
    decreases width,
{
    if width > 0 {
        law_hex_shape(n / 16, (width - 1) as nat);
    }
}

/// Decimal notation: one digit below ten, a further digit behind for every further power of ten,
/// and a minus sign in front of the notation of a negative number's opposite.
pub proof fn law_decimal_notation(n: int, digit: int)
    requires
        n > 0,
        0 <= digit < 10,
    ensures
        decimal(digit) == seq!["0123456789"@[digit]],
        decimal(10 * n + digit) == decimal(n).push("0123456789"@[digit]),
        decimal(-n) == seq!['-'] + decimal(n),
{
    reveal_strlit("0123456789");
    assert((10 * n + digit) / 10 == n && (10 * n + digit) % 10 == digit);
}

/// A further digit behind what writes a number makes it ten times the number and the digit, away
/// from zero; a sign in front of digits says on which side of zero the number lies.
pub proof fn law_digits_are_read_in_order(digits: Seq<char>, digit: int)
    requires
        digits.len() > 0,
        forall|i: int| 0 <= i < digits.len() ==> '0' <= #[trigger] digits[i] <= '9',
        0 <= digit < 10,
    ensures
        written_integer(seq!["0123456789"@[digit]]) == Some(digit),
        written_integer(digits) is Some,
        written_integer(digits.push("0123456789"@[digit])) == Some(
            10 * written_integer(digits).unwrap() + digit,
        ),
        written_integer(seq!['+'] + digits) == written_integer(digits),
        written_integer(seq!['-'] + digits) == Some(-written_integer(digits).unwrap()),
{
    reveal_strlit("0123456789");
    reveal_with_fuel(digits_value, 2);
    let c = "0123456789"@[digit];
    assert(is_digit(digits[0]));
    assert(all_digits(digits));
    assert(digits.push(c).drop_last() =~= digits);
    assert(all_digits(digits.push(c)));
    assert(digits.push(c)[0] == digits[0]);
    assert((seq!['+'] + digits).skip(1) =~= digits);
    assert((seq!['-'] + digits).skip(1) =~= digits);
    assert(seq![c].drop_last() =~= Seq::<char>::empty());
}

/// Nothing but digits, with a sign in front or not, writes an integer.
pub proof fn law_integers_hold_digits_only(text: Seq<char>, i: int)
    requires
        0 <= i < text.len(),
        !('0' <= text[i] <= '9'),
        i > 0 || text.len() == 1 || text[0] != '+' && text[0] != '-',
    ensures
        written_integer(text) is None,
        written_integer(Seq::empty()) is None,
{
    let digits = unsigned_part(text);
    if has_sign(text) {
        if text.len() > 1 {
            assert(digits[i - 1] == text[i]);
            assert(!is_digit(digits[i - 1]));
        }
    } else {
        assert(!is_digit(digits[i]));
    }
}

/// An integer within the bounds is the one that is written, and none outside them is given.
pub proof fn law_bounds_are_kept(text: Seq<char>, min: int, max: int)
    ensures
        integer_within(text, min, max) == match written_integer(text) {
            None => None,
            Some(n) => if n < min || max < n {
                None
            } else {
                Some(n)
            },
        },
{
}

/// Fixed-width hexadecimal: the last digit is the remainder by sixteen, and the others write the
/// quotient.
pub proof fn law_hex_notation(n: int, digit: int, width: nat)
    requires
        n >= 0,
        0 <= digit < 16,
    ensures
        hex_digits(n, 0) == Seq::<char>::empty(),
        hex_digits(16 * n + digit, width + 1) == hex_digits(n, width).push(
            "0123456789abcdef"@[digit],
        ),
{
    reveal_strlit("0123456789abcdef");
    assert((16 * n + digit) / 16 == n && (16 * n + digit) % 16 == digit);
}

} // verus!
