//! Text as sequences of characters: comparison, search, splitting and numbers.

use vstd::prelude::*;

verus! {

/// The views of a sequence of strings.
pub open spec fn texts(strings: Seq<String>) -> Seq<Seq<char>> {
    strings.map_values(|s: String| s@)
}

/// The characters of `s`, in order.
pub fn chars_of(s: &str) -> (chars: Vec<char>)
    ensures
        chars@ == s@,
{
    let mut chars: Vec<char> = Vec::new();
    for c in it: s.chars()
        invariant
            it.seq() == s@,
            chars@ == s@.take(it.index() as int),
    {
        chars.push(c);
        assert(s@.take(it.index() as int).push(c) =~= s@.take(it.index() + 1));
    }
    assert(s@.take(s@.len() as int) =~= s@);
    chars
}

/// Whether two strings hold the same characters.
pub fn same_text(a: &str, b: &str) -> (same: bool)
    ensures
        same == (a@ == b@),
{
    a.to_owned() == b.to_owned()
}

/// Whether `needle` stands in `hay` at position `at`.
pub open spec fn occurs_at(hay: Seq<char>, needle: Seq<char>, at: int) -> bool {
    &&& 0 <= at <= hay.len() - needle.len()
    &&& hay.subrange(at, at + needle.len()) == needle
}

/// Whether `needle` is a substring of `hay`.
pub open spec fn occurs(hay: Seq<char>, needle: Seq<char>) -> bool {
    exists|at: int| occurs_at(hay, needle, at)
}

/// Whether `needle` is a substring of `hay`.
pub fn contains_text(hay: &str, needle: &str) -> (found: bool)
    ensures
        found == occurs(hay@, needle@),
{
    let h: Vec<char> = chars_of(hay);
    let n: Vec<char> = chars_of(needle);
    if n.len() > h.len() {
        return false;
    }
    let last: usize = h.len() - n.len();
    let mut at: usize = 0;
    loop
        invariant
            at <= last,
            last == h.len() - n.len(),
            h@ == hay@,
            n@ == needle@,
            forall|k: int| 0 <= k < at ==> !occurs_at(hay@, needle@, k),
        decreases last - at,
    {
        let mut j: usize = 0;
        while j < n.len() && h[at + j] == n[j]
            invariant
                j <= n.len(),
                at + n.len() <= h.len(),
                forall|k: int| 0 <= k < j ==> h@[at + k] == n@[k],
            decreases n.len() - j,
        {
            j = j + 1;
        }
        if j == n.len() {
            assert(hay@.subrange(at as int, at + needle@.len()) =~= needle@);
            assert(occurs_at(hay@, needle@, at as int));
            return true;
        }
        assert(!occurs_at(hay@, needle@, at as int)) by {
            if occurs_at(hay@, needle@, at as int) {
                assert(hay@.subrange(at as int, at + needle@.len())[j as int] == needle@[j as int]);
            }
        }
        if at == last {
            return false;
        }
        at = at + 1;
    }
}

/// The two sides of the first `=` of a text; none where it holds no `=`.
pub open spec fn split_at_equals(s: Seq<char>) -> Option<(Seq<char>, Seq<char>)> {
    match s.index_of_first('=') {
        Some(at) => Some((s.take(at), s.skip(at + 1))),
        None => None,
    }
}

/// Splits at the first `=`.
pub fn split_key_value<'a>(s: &'a str) -> (split: Option<(&'a str, &'a str)>)
    ensures
        split is Some <==> split_at_equals(s@) is Some,
        split matches Some((key, value)) ==> split_at_equals(s@) == Some((key@, value@)),
{
    let chars: Vec<char> = chars_of(s);
    proof {
        s@.index_of_first_ensures('=');
    }
    let mut at: usize = 0;
    while at < chars.len()
        invariant
            at <= chars.len(),
            chars@ == s@,
            forall|k: int| 0 <= k < at ==> s@[k] != '=',
        decreases chars.len() - at,
    {
        if chars[at] == '=' {
            assert(s@.contains('='));
            proof {
                s@.index_of_first_ensures('=');
            }
            assert(s@.index_of_first('=') == Some(at as int));
            let key: &'a str = s.substring_char(0, at);
            let value: &'a str = s.substring_char(at + 1, chars.len());
            assert(key@ =~= s@.take(at as int));
            assert(value@ =~= s@.skip(at + 1));
            return Some((key, value));
        }
        at = at + 1;
    }
    None
}

/// The decimal digit of a number below ten.
pub open spec fn digit_char(d: int) -> char {
    (d + 48) as char
}

/// A natural number in decimal, without leading zeros.
pub open spec fn decimal(n: nat) -> Seq<char>
    decreases n,
{
    if n < 10 {
        seq![digit_char(n as int)]
    } else {
        decimal(n / 10).push(digit_char((n % 10) as int))
    }
}

/// An integer in decimal, with a minus sign where it is negative.
pub open spec fn signed_decimal(n: int) -> Seq<char> {
    if n < 0 {
        seq!['-'] + decimal((-n) as nat)
    } else {
        decimal(n as nat)
    }
}

fn digit_text(d: u64) -> (s: &'static str)
    requires
        d < 10,
    ensures
        s@ == seq![digit_char(d as int)],
{
    proof {
        reveal_strlit("0");
        reveal_strlit("1");
        reveal_strlit("2");
        reveal_strlit("3");
        reveal_strlit("4");
        reveal_strlit("5");
        reveal_strlit("6");
        reveal_strlit("7");
        reveal_strlit("8");
        reveal_strlit("9");
    }
    let s: &'static str = match d {
        0 => "0",
        1 => "1",
        2 => "2",
        3 => "3",
        4 => "4",
        5 => "5",
        6 => "6",
        7 => "7",
        8 => "8",
        _ => "9",
    };
    assert(s@ =~= seq![digit_char(d as int)]);
    s
}

/// Writes a number in decimal.
pub fn decimal_text(n: u64) -> (s: String)
    ensures
        s@ == decimal(n as nat),
    decreases n,
{
    if n < 10 {
        digit_text(n).to_owned()
    } else {
        let mut s: String = decimal_text(n / 10);
        s.append(digit_text(n % 10));
        assert(s@ =~= decimal(n as nat));
        s
    }
}

/// The lower-case hexadecimal digit of a number below sixteen.
pub open spec fn hex_char(d: int) -> char {
    if d < 10 {
        (d + 48) as char
    } else {
        (d + 87) as char
    }
}

/// A natural number in hexadecimal, without leading zeros.
pub open spec fn hexadecimal(n: nat) -> Seq<char>
    decreases n,
{
    if n < 16 {
        seq![hex_char(n as int)]
    } else {
        hexadecimal(n / 16).push(hex_char((n % 16) as int))
    }
}

/// A natural number in hexadecimal, of at least two digits.
pub open spec fn hex_byte(n: nat) -> Seq<char> {
    if n < 16 {
        seq!['0', hex_char(n as int)]
    } else {
        hexadecimal(n)
    }
}

fn hex_digit_text(d: u64) -> (s: &'static str)
    requires
        d < 16,
    ensures
        s@ == seq![hex_char(d as int)],
{
    if d < 10 {
        return digit_text(d);
    }
    proof {
        reveal_strlit("a");
        reveal_strlit("b");
        reveal_strlit("c");
        reveal_strlit("d");
        reveal_strlit("e");
        reveal_strlit("f");
    }
    let s: &'static str = match d {
        10 => "a",
        11 => "b",
        12 => "c",
        13 => "d",
        14 => "e",
        _ => "f",
    };
    assert(s@ =~= seq![hex_char(d as int)]);
    s
}

fn hexadecimal_text(n: u64) -> (s: String)
    ensures
        s@ == hexadecimal(n as nat),
    decreases n,
{
    if n < 16 {
        hex_digit_text(n).to_owned()
    } else {
        let mut s: String = hexadecimal_text(n / 16);
        s.append(hex_digit_text(n % 16));
        assert(s@ =~= hexadecimal(n as nat));
        s
    }
}

/// Writes a number in hexadecimal, with at least two digits.
pub fn hex_byte_text(n: u64) -> (s: String)
    ensures
        s@ == hex_byte(n as nat),
{
    if n < 16 {
        proof {
            reveal_strlit("0");
        }
        let mut s: String = "0".to_owned();
        s.append(hex_digit_text(n));
        assert(s@ =~= hex_byte(n as nat));
        s
    } else {
        hexadecimal_text(n)
    }
}

/// Whether a character is a decimal digit.
pub open spec fn is_digit(c: char) -> bool {
    '0' <= c <= '9'
}

/// The number that a row of decimal digits stands for.
pub open spec fn digits_value(digits: Seq<char>) -> nat
    decreases digits.len(),
{
    if digits.len() == 0 {
        0
    } else {
        (digits_value(digits.drop_last()) * 10 + (digits.last() as int - 48)) as nat
    }
}

/// A text without its leading plus sign, where it has one.
pub open spec fn without_plus(s: Seq<char>) -> Seq<char> {
    if s.len() > 0 && s[0] == '+' {
        s.skip(1)
    } else {
        s
    }
}

/// What an unsigned number of at most `max` is read from: an optional plus sign, then one or
/// more decimal digits, and nothing else.
pub open spec fn parsed_unsigned(s: Seq<char>, max: nat) -> Option<nat> {
    let digits = without_plus(s);
    if digits.len() > 0 && (forall|i: int| 0 <= i < digits.len() ==> is_digit(#[trigger] digits[i]))
        && digits_value(digits) <= max {
        Some(digits_value(digits))
    } else {
        None
    }
}

proof fn lemma_digits_value_grows(digits: Seq<char>, n: int)
    requires
        0 <= n <= digits.len(),
        forall|i: int| 0 <= i < digits.len() ==> is_digit(#[trigger] digits[i]),
    ensures
        digits_value(digits.take(n)) <= digits_value(digits),
    decreases digits.len(),
{
    if n == digits.len() {
        assert(digits.take(n) =~= digits);
    } else {
        assert(digits.drop_last().take(n) =~= digits.take(n));
        assert forall|i: int| 0 <= i < digits.drop_last().len() implies is_digit(
            #[trigger] digits.drop_last()[i],
        ) by {
            assert(digits.drop_last()[i] == digits[i]);
        }
        lemma_digits_value_grows(digits.drop_last(), n);
        assert(is_digit(digits[digits.len() - 1]));
    }
}

/// Reads an unsigned number of at most `max`.
pub fn parse_unsigned(s: &str, max: u64) -> (n: Option<u64>)
    ensures
        n is Some <==> parsed_unsigned(s@, max as nat) is Some,
        n matches Some(v) ==> parsed_unsigned(s@, max as nat) == Some(v as nat),
{
    let chars: Vec<char> = chars_of(s);
    let start: usize = if chars.len() > 0 && chars[0] == '+' { 1 } else { 0 };
    let ghost digits = without_plus(s@);
    assert(digits =~= s@.skip(start as int));
    if start == chars.len() {
        return None;
    }
    let mut value: u64 = 0;
    let mut i: usize = start;
    assert(digits.take(0) =~= Seq::<char>::empty());
    while i < chars.len()
        invariant
            start <= i <= chars.len(),
            start < chars.len(),
            chars@ == s@,
            digits == without_plus(s@),
            digits == s@.skip(start as int),
            forall|k: int| 0 <= k < i - start ==> is_digit(#[trigger] digits[k]),
            value == digits_value(digits.take(i - start)),
            value <= max,
        decreases chars.len() - i,
    {
        let c: char = chars[i];
        assert(digits[i - start] == c);
        if !('0' <= c && c <= '9') {
            assert(!is_digit(digits[i - start]));
            return None;
        }
        let d: u64 = (c as u64) - 48;
        assert(digits.take(i - start + 1).drop_last() =~= digits.take(i - start));
        assert(digits.take(i - start + 1).last() == c);
        if d > max || value > (max - d) / 10 {
            proof {
                if forall|k: int| 0 <= k < digits.len() ==> is_digit(#[trigger] digits[k]) {
                    lemma_digits_value_grows(digits, i - start + 1);
                    assert(digits_value(digits) > max);
                }
            }
            return None;
        }
        value = value * 10 + d;
        i = i + 1;
    }
    assert(digits.take(i - start) =~= digits);
    Some(value)
}

/// A text followed by spaces up to a width in characters; longer texts stay as they are.
pub open spec fn padded_right(s: Seq<char>, width: nat) -> Seq<char> {
    if s.len() >= width {
        s
    } else {
        s + Seq::new((width - s.len()) as nat, |i: int| ' ')
    }
}

/// Pads a text with spaces on the right, up to a width in characters.
pub fn pad_right(s: &str, width: usize) -> (padded: String)
    ensures
        padded@ == padded_right(s@, width as nat),
{
    let mut padded: String = s.to_owned();
    let mut n: usize = s.unicode_len();
    proof {
        reveal_strlit(" ");
    }
    while n < width
        invariant
            n >= s@.len(),
            n <= width || n == s@.len(),
            padded@ =~= s@ + Seq::new((n - s@.len()) as nat, |i: int| ' '),
            " "@ =~= seq![' '],
        decreases width - n,
    {
        padded.append(" ");
        n = n + 1;
    }
    assert(padded@ =~= padded_right(s@, width as nat));
    padded
}

/// A text behind spaces up to a width in characters; longer texts stay as they are.
pub open spec fn padded_left(s: Seq<char>, width: nat) -> Seq<char> {
    if s.len() >= width {
        s
    } else {
        Seq::new((width - s.len()) as nat, |i: int| ' ') + s
    }
}

/// Pads a text with spaces on the left, up to a width in characters.
pub fn pad_left(s: &str, width: usize) -> (padded: String)
    ensures
        padded@ == padded_left(s@, width as nat),
{
    let mut padded: String = String::new();
    let length: usize = s.unicode_len();
    let mut n: usize = length;
    proof {
        reveal_strlit(" ");
    }
    while n < width
        invariant
            length == s@.len(),
            n >= length,
            n <= width || n == length,
            padded@ =~= Seq::new((n - length) as nat, |i: int| ' '),
            " "@ =~= seq![' '],
        decreases width - n,
    {
        padded.append(" ");
        n = n + 1;
    }
    padded.append(s);
    assert(padded@ =~= padded_left(s@, width as nat));
    padded
}

} // verus!
