//! Text built from parts: decimal numbers, joined fields, prefixes.

use vstd::prelude::*;
use vstd::string::*;

verus! {

/// Whether two texts hold the same characters.
pub fn text_equal(a: &str, b: &str) -> (equal: bool)
    ensures
        equal == (a@ == b@),
{
    a.to_owned() == b.to_owned()
}

/// Whether two optional texts are both absent or hold the same characters.
pub fn optional_text_equal(a: &Option<String>, b: &Option<String>) -> (equal: bool)
    ensures
        equal == (optional_text(*a) == optional_text(*b)),
{
    match (a, b) {
        (None, None) => true,
        (Some(left), Some(right)) => text_equal(left.as_str(), right.as_str()),
        _ => false,
    }
}

/// The characters of an optional text.
pub open spec fn optional_text(value: Option<String>) -> Option<Seq<char>> {
    match value {
        None => None,
        Some(text) => Some(text@),
    }
}

/// The decimal digit of a number below ten.
pub open spec fn digit(n: nat) -> char {
    if n == 0 {
        '0'
    } else if n == 1 {
        '1'
    } else if n == 2 {
        '2'
    } else if n == 3 {
        '3'
    } else if n == 4 {
        '4'
    } else if n == 5 {
        '5'
    } else if n == 6 {
        '6'
    } else if n == 7 {
        '7'
    } else if n == 8 {
        '8'
    } else {
        '9'
    }
}

/// The decimal digits of a number, without leading zeros.
pub open spec fn decimal(n: nat) -> Seq<char>
    decreases n,
{
    if n < 10 {
        seq![digit(n)]
    } else {
        decimal(n / 10).push(digit(n % 10))
    }
}

/// The last `width` decimal digits of a number.
pub open spec fn padded(n: nat, width: nat) -> Seq<char>
    decreases width,
{
    if width == 0 {
        Seq::empty()
    } else {
        padded(n / 10, (width - 1) as nat).push(digit(n % 10))
    }
}

fn push_digit(out: &mut String, n: u64)
    requires
        n < 10,
    ensures
        final(out)@ == old(out)@.push(digit(n as nat)),
{
    let text: &'static str = match n {
        0 => "0",
        1 => "1",
        2 => "2",
        3 => "3",
        4 => "4",
        5 => "5",
        6 => "6",
        7 => "7",
        8 => "8",
        _ => "9",
    };
    proof {
        reveal_strlit("0");
        reveal_strlit("1");
        reveal_strlit("2");
        reveal_strlit("3");
        reveal_strlit("4");
        reveal_strlit("5");
        reveal_strlit("6");
        reveal_strlit("7");
        reveal_strlit("8");
        reveal_strlit("9");
        assert(text@ =~= seq![digit(n as nat)]);
        assert(out@ + text@ =~= out@.push(digit(n as nat)));
    }
    out.append(text);
}

/// Append a number in decimal.
pub fn push_decimal(out: &mut String, n: u64)
    ensures
        final(out)@ == old(out)@ + decimal(n as nat),
    decreases n,
{
    let ghost before = out@;
    if n >= 10 {
        push_decimal(out, n / 10);
    }
    push_digit(out, n % 10);
    assert(out@ =~= before + decimal(n as nat));
}

/// `count` zeros.
pub open spec fn zeros(count: nat) -> Seq<char> {
    Seq::new(count, |i: int| '0')
}

/// The decimal digits of a number, with zeros in front up to `width` digits.
pub open spec fn zero_padded(n: nat, width: nat) -> Seq<char> {
    if decimal(n).len() < width {
        zeros((width - decimal(n).len()) as nat) + decimal(n)
    } else {
        decimal(n)
    }
}

/// Append a number in decimal with zeros in front up to `width` digits.
pub fn push_zero_padded(out: &mut String, n: u64, width: usize)
    ensures
        final(out)@ == old(out)@ + zero_padded(n as nat, width as nat),
{
    let ghost before = out@;
    let mut digits: String = String::new();
    push_decimal(&mut digits, n);
    assert(digits@ =~= decimal(n as nat));
    let mut length: usize = digits.as_str().unicode_len();
    let ghost initial = length;
    assert(before + zeros(0) =~= before);
    while length < width
        invariant
            initial <= length,
            initial <= width ==> length <= width,
            width <= initial ==> length == initial,
            initial == decimal(n as nat).len(),
            digits@ == decimal(n as nat),
            out@ == before + zeros((length - initial) as nat),
        decreases width - length,
    {
        push_digit(out, 0);
        assert(out@ =~= before + zeros((length + 1 - initial) as nat));
        length += 1;
    }
    out.append(digits.as_str());
    assert(out@ =~= before + zero_padded(n as nat, width as nat));
}

/// `value` without the leading `prefix`, or `None` where it does not start so.
pub open spec fn without_prefix(value: Seq<char>, prefix: Seq<char>) -> Option<Seq<char>> {
    if value.len() >= prefix.len() && value.take(prefix.len() as int) == prefix {
        Some(value.skip(prefix.len() as int))
    } else {
        None
    }
}

/// The characters of a text.
pub fn chars_of(value: &str) -> (chars: Vec<char>)
    ensures
        chars@ == value@,
{
    let mut chars: Vec<char> = Vec::new();
    for c in it: value.chars()
        invariant
            it.seq() == value@,
            chars@ == value@.take(it.index() as int),
    {
        chars.push(c);
        assert(value@.take(it.index() + 1) =~= value@.take(it.index() as int).push(c));
    }
    assert(value@.take(value@.len() as int) =~= value@);
    chars
}

/// A decimal digit.
pub open spec fn is_digit(c: char) -> bool {
    '0' <= c <= '9'
}

/// Every character is a decimal digit.
pub open spec fn all_digits(text: Seq<char>) -> bool {
    forall|i: int| 0 <= i < text.len() ==> is_digit(#[trigger] text[i])
}

/// The number that decimal digits stand for.
pub open spec fn decimal_value(text: Seq<char>) -> nat
    decreases text.len(),
{
    if text.len() == 0 {
        0
    } else {
        decimal_value(text.drop_last()) * 10 + (text.last() as int - '0' as int) as nat
    }
}

/// The digits of an unsigned number: all of the text, or what follows a plus.
pub open spec fn unsigned_digits(text: Seq<char>) -> Seq<char> {
    if text.len() > 0 && text[0] == '+' {
        text.skip(1)
    } else {
        text
    }
}

/// The number written by a text of decimal digits behind an optional plus,
/// where it fits a `u64`.
pub open spec fn unsigned_value(text: Seq<char>) -> Option<u64> {
    let digits = unsigned_digits(text);
    if digits.len() > 0 && all_digits(digits) && decimal_value(digits) <= u64::MAX {
        Some(decimal_value(digits) as u64)
    } else {
        None
    }
}

/// The number that the characters from `start` write in decimal.
pub fn parse_digits(chars: &Vec<char>, start: usize, end: usize) -> (value: Option<u64>)
    requires
        start <= end <= chars@.len(),
    ensures
        ({
            let digits = chars@.subrange(start as int, end as int);
            match value {
                Some(number) => digits.len() > 0 && all_digits(digits) && number == decimal_value(
                    digits,
                ),
                None => digits.len() == 0 || !all_digits(digits) || decimal_value(digits)
                    > u64::MAX,
            }
        }),
{
    let ghost digits = chars@.subrange(start as int, end as int);
    if start == end {
        return None;
    }
    let mut value: u64 = 0;
    let mut overflow: bool = false;
    let mut i: usize = start;
    assert(digits.take(0) =~= Seq::empty());
    while i < end
        invariant
            start <= i <= end <= chars@.len(),
            digits == chars@.subrange(start as int, end as int),
            all_digits(digits.take(i - start)),
            !overflow ==> value == decimal_value(digits.take(i - start)),
            overflow ==> decimal_value(digits.take(i - start)) > u64::MAX,
        decreases end - i,
    {
        let c: char = chars[i];
        let ghost k = i - start;
        assert(digits[k] == c);
        if !('0' <= c && c <= '9') {
            assert(!is_digit(digits[k]));
            return None;
        }
        proof {
            assert(digits.take(k + 1).drop_last() =~= digits.take(k));
            assert(digits.take(k + 1).last() == c);
            assert forall|j: int| 0 <= j < k + 1 implies is_digit(
                #[trigger] digits.take(k + 1)[j],
            ) by {
                if j < k {
                    assert(digits.take(k)[j] == digits.take(k + 1)[j]);
                }
            }
        }
        let unit: u64 = c as u64 - '0' as u64;
        if !overflow {
            match value.checked_mul(10) {
                None => {
                    overflow = true;
                },
                Some(tens) => match tens.checked_add(unit) {
                    None => {
                        overflow = true;
                    },
                    Some(sum) => {
                        value = sum;
                    },
                },
            }
        }
        i += 1;
    }
    assert(digits.take(end - start) =~= digits);
    if overflow {
        None
    } else {
        Some(value)
    }
}

/// Read an unsigned decimal number with an optional leading plus.
pub fn parse_unsigned(text: &str) -> (value: Option<u64>)
    ensures
        value == unsigned_value(text@),
{
    let chars: Vec<char> = chars_of(text);
    let count: usize = chars.len();
    if count > 0 && chars[0] == '+' {
        assert(chars@.subrange(1, count as int) =~= text@.skip(1));
        parse_digits(&chars, 1, count)
    } else {
        assert(chars@.subrange(0, count as int) =~= text@);
        parse_digits(&chars, 0, count)
    }
}

/// The first place of `wanted` at or after `start`.
pub fn find_char(chars: &Vec<char>, wanted: char, start: usize) -> (place: Option<usize>)
    requires
        start <= chars@.len(),
    ensures
        match place {
            Some(index) => {
                &&& start <= index < chars@.len()
                &&& chars@[index as int] == wanted
                &&& forall|i: int| start <= i < index ==> chars@[i] != wanted
            },
            None => forall|i: int| start <= i < chars@.len() ==> chars@[i] != wanted,
        },
{
    let mut i: usize = start;
    while i < chars.len()
        invariant
            start <= i <= chars@.len(),
            forall|j: int| start <= j < i ==> chars@[j] != wanted,
        decreases chars.len() - i,
    {
        if chars[i] == wanted {
            return Some(i);
        }
        i += 1;
    }
    None
}

/// The text behind `prefix`.
pub fn strip_prefix<'a>(value: &'a str, prefix: &str) -> (rest: Option<&'a str>)
    ensures
        match rest {
            Some(text) => without_prefix(value@, prefix@) == Some(text@),
            None => without_prefix(value@, prefix@) is None,
        },
{
    let total: usize = value.unicode_len();
    let head: usize = prefix.unicode_len();
    if total < head {
        return None;
    }
    if !text_equal(value.substring_char(0, head), prefix) {
        assert(value@.subrange(0, head as int) =~= value@.take(head as int));
        return None;
    }
    assert(value@.subrange(0, head as int) =~= value@.take(head as int));
    assert(value@.subrange(head as int, total as int) =~= value@.skip(head as int));
    Some(value.substring_char(head, total))
}

/// A copy of an optional text.
pub fn copy_optional(text: &Option<String>) -> (copy: Option<String>)
    ensures
        copy == *text,
{
    match text {
        Some(text) => Some(text.clone()),
        None => None,
    }
}

} // verus!
