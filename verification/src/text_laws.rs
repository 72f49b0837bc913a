//! What holds of text: parts, splits, numbers and padding.

use vstd::prelude::*;

use crate::text::decimal;
use crate::text::digits_value;
use crate::text::hex_byte;
use crate::text::hexadecimal;
use crate::text::is_digit;
use crate::text::occurs;
use crate::text::occurs_at;
use crate::text::padded_left;
use crate::text::padded_right;
use crate::text::parsed_unsigned;
use crate::text::signed_decimal;
use crate::text::split_at_equals;
use crate::text::without_plus;

verus! {

/// Whatever stands in the middle of a text occurs in it.
pub proof fn law_parts_occur(before: Seq<char>, part: Seq<char>, after: Seq<char>)
    ensures
        occurs(before + part + after, part),
{
    let all = before + part + after;
    let at = before.len() as int;
    assert(all.subrange(at, at + part.len()) =~= part);
    assert(occurs_at(all, part, at));
}

/// A text that occurs in another one splits it: there is something before it, possibly nothing, and
/// something behind it.
pub proof fn law_what_occurs_splits(hay: Seq<char>, needle: Seq<char>) -> (split: (
    Seq<char>,
    Seq<char>,
))
    requires
        occurs(hay, needle),
    ensures
        hay == split.0 + needle + split.1,
{
    let at = choose|at: int| occurs_at(hay, needle, at);
    let before = hay.take(at);
    let after = hay.skip(at + needle.len());
    assert(hay.subrange(at, at + needle.len()) == needle);
    assert(hay =~= before + hay.subrange(at, at + needle.len()) + after);
    (before, after)
}

/// A setting is split at its first `=`: joined by one, the two sides make the text again, and the
/// left side holds none. A text without `=` is not split, and every other one is.
pub proof fn law_split_is_at_the_first_equals(s: Seq<char>)
    ensures
        split_at_equals(s) is Some <==> s.contains('='),
        split_at_equals(s) matches Some((key, value)) ==> s == key.push('=') + value
            && !key.contains('='),
{
    s.index_of_first_ensures('=');
    if let Some((key, value)) = split_at_equals(s) {
        let at = s.index_of_first('=')->Some_0;
        assert(s =~= key.push('=') + value);
        if key.contains('=') {
            let i = choose|i: int| 0 <= i < key.len() && key[i] == '=';
            assert(s[i] == '=');
        }
    }
}

/// A key without `=`, an `=` and a value are split into the key and the value.
pub proof fn law_key_and_value_are_split(key: Seq<char>, value: Seq<char>)
    requires
        !key.contains('='),
    ensures
        split_at_equals(key.push('=') + value) == Some((key, value)),
{
    let s = key.push('=') + value;
    let at = key.len() as int;
    assert(s[at] == '=');
    s.index_of_first_ensures('=');
    let first = s.index_of_first('=')->Some_0;
    if first < at {
        assert(key[first] == '=');
    }
    assert(s.take(at) =~= key);
    assert(s.skip(at + 1) =~= value);
}

/// A number in decimal is made of digits, starts with none that is zero unless it is zero, and
/// stands for the number.
pub proof fn law_decimal_stands_for_the_number(n: nat)
    ensures
        decimal(n).len() > 0,
        forall|i: int| 0 <= i < decimal(n).len() ==> '0' <= #[trigger] decimal(n)[i] <= '9',
        decimal(n)[0] == '0' <==> n == 0,
        digits_value(decimal(n)) == n,
        n < 10 ==> decimal(n).len() == 1,
        n >= 10 ==> decimal(n).len() == decimal(n / 10).len() + 1,
    decreases n,
{
    let s = decimal(n);
    if n < 10 {
        assert(s.drop_last() =~= Seq::<char>::empty());
        assert(digits_value(s.drop_last()) == 0);
        assert(s.last() as int - 48 == n);
    } else {
        law_decimal_stands_for_the_number(n / 10);
        assert(s.drop_last() =~= decimal(n / 10));
        assert(s[0] == decimal(n / 10)[0]);
    }
}

/// Each digit counts ten times what the digits behind it count.
pub proof fn law_digits_count_by_ten(digits: Seq<char>, digit: char)
    requires
        '0' <= digit <= '9',
    ensures
        digits_value(digits.push(digit)) == digits_value(digits) * 10 + (digit as int - '0' as int),
        digits_value(Seq::<char>::empty()) == 0,
{
    assert(digits.push(digit).drop_last() =~= digits);
}

/// An integer is written like its size, behind a minus sign exactly where it is negative.
pub proof fn law_negative_numbers_have_a_sign(n: int)
    ensures
        n >= 0 ==> signed_decimal(n) == decimal(n as nat),
        n < 0 ==> signed_decimal(n) == seq!['-'] + decimal((-n) as nat),
{
}

/// What is written in decimal reads back, with or without a plus sign, exactly where it fits.
pub proof fn law_numbers_read_back(n: nat, max: nat)
    ensures
        parsed_unsigned(decimal(n), max) == (if n <= max {
            Some(n)
        } else {
            None
        }),
        parsed_unsigned(seq!['+'] + decimal(n), max) == (if n <= max {
            Some(n)
        } else {
            None
        }),
{
    law_decimal_stands_for_the_number(n);
    let s = decimal(n);
    assert(is_digit(s[0]));
    assert(without_plus(s) == s);
    let plus = seq!['+'] + s;
    assert(without_plus(plus) =~= s);
    assert(forall|i: int| 0 <= i < s.len() ==> is_digit(#[trigger] s[i]));
}

/// A row of characters is read as a number, behind a plus sign or without one, exactly if there is
/// at least one, all are digits, and the number that they stand for fits; it is then that number.
pub proof fn law_only_digits_are_numbers(row: Seq<char>, max: nat)
    ensures
        parsed_unsigned(seq!['+'] + row, max) is Some <==> row.len() > 0 && (forall|i: int|
            0 <= i < row.len() ==> '0' <= #[trigger] row[i] <= '9') && digits_value(row) <= max,
        parsed_unsigned(seq!['+'] + row, max) matches Some(n) ==> n == digits_value(row),
        row.len() == 0 || row[0] != '+' ==> parsed_unsigned(row, max) == parsed_unsigned(
            seq!['+'] + row,
            max,
        ),
{
    assert(without_plus(seq!['+'] + row) =~= row);
    if forall|i: int| 0 <= i < row.len() ==> '0' <= #[trigger] row[i] <= '9' {
        assert forall|i: int| 0 <= i < row.len() implies is_digit(#[trigger] row[i]) by {}
    }
    if forall|i: int| 0 <= i < row.len() ==> is_digit(#[trigger] row[i]) {
        assert forall|i: int| 0 <= i < row.len() implies '0' <= #[trigger] row[i] <= '9' by {
            assert(is_digit(row[i]));
        }
    }
}

/// The number that a row of hexadecimal digits stands for.
pub open spec fn hex_value(digits: Seq<char>) -> nat
    decreases digits.len(),
{
    if digits.len() == 0 {
        0
    } else {
        let c = digits.last();
        hex_value(digits.drop_last()) * 16 + if '0' <= c <= '9' {
            (c as int - '0' as int) as nat
        } else {
            (c as int - 'a' as int + 10) as nat
        }
    }
}

/// Whether a character is a lower-case hexadecimal digit.
pub open spec fn is_hex_digit(c: char) -> bool {
    '0' <= c <= '9' || 'a' <= c <= 'f'
}

proof fn lemma_hexadecimal(n: nat)
    ensures
        hexadecimal(n).len() > 0,
        n >= 16 ==> hexadecimal(n).len() >= 2,
        hexadecimal(n)[0] == '0' <==> n == 0,
        forall|i: int| 0 <= i < hexadecimal(n).len() ==> is_hex_digit(#[trigger] hexadecimal(n)[i]),
        hex_value(hexadecimal(n)) == n,
    decreases n,
{
    let s = hexadecimal(n);
    if n < 16 {
        assert(s.drop_last() =~= Seq::<char>::empty());
        assert(hex_value(s.drop_last()) == 0);
    } else {
        lemma_hexadecimal(n / 16);
        assert(s.drop_last() =~= hexadecimal(n / 16));
        assert(s[0] == hexadecimal(n / 16)[0]);
    }
}

/// A number in hexadecimal has at least two digits, no more than two of which the first is zero,
/// and stands for the number.
pub proof fn law_hexadecimal_stands_for_the_number(n: nat)
    ensures
        hex_byte(n).len() >= 2,
        hex_byte(n)[0] == '0' ==> hex_byte(n).len() == 2,
        forall|i: int| 0 <= i < hex_byte(n).len() ==> is_hex_digit(#[trigger] hex_byte(n)[i]),
        hex_value(hex_byte(n)) == n,
{
    lemma_hexadecimal(n);
    let s = hex_byte(n);
    if n < 16 {
        reveal_with_fuel(hex_value, 3);
        assert(s.drop_last() =~= seq!['0']);
        assert(seq!['0'].drop_last() =~= Seq::<char>::empty());
    }
}

/// A padded text is as wide as asked for, or as the text where that is wider, and holds the text
/// with nothing but spaces behind it or before it.
pub proof fn law_padding_is_spaces(s: Seq<char>, width: nat)
    ensures
        padded_right(s, width).len() == (if s.len() >= width {
            s.len()
        } else {
            width
        }),
        padded_right(s, width).take(s.len() as int) == s,
        forall|i: int|
            s.len() <= i < padded_right(s, width).len() ==> #[trigger] padded_right(s, width)[i]
                == ' ',
        padded_left(s, width).len() == (if s.len() >= width {
            s.len()
        } else {
            width
        }),
        padded_left(s, width).skip(padded_left(s, width).len() - s.len()) == s,
        forall|i: int|
            0 <= i < padded_left(s, width).len() - s.len() ==> #[trigger] padded_left(s, width)[i]
                == ' ',
{
    assert(padded_right(s, width).take(s.len() as int) =~= s);
    assert(padded_left(s, width).skip(padded_left(s, width).len() - s.len()) =~= s);
}

} // verus!
