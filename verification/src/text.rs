//! Reading and writing numbers in decimal digits, and cutting text into
//! pieces.

use vstd::prelude::*;
use vstd::string::StringExecFns;

verus! {

/// Returns the characters of a string.
pub fn chars_of(text: &str) -> (chars: Vec<char>)
    ensures
        chars@ == text@,
{
    let mut chars: Vec<char> = Vec::new();
    for c in iter: text.chars()
        invariant
            iter.seq() == text@,
            chars@ == iter.seq().take(iter.index() as int),
    {
        assert(iter.seq().take(iter.index() + 1) =~= iter.seq().take(iter.index() as int).push(c));
        chars.push(c);
    }
    assert(text@.take(text@.len() as int) =~= text@);
    chars
}

/// A character is one of the digits `0` to `9`.
pub open spec fn is_digit(c: char) -> bool {
    0x30 <= c as u32 <= 0x39
}

/// The number that a digit stands for.
pub open spec fn digit_value(c: char) -> nat
    recommends
        is_digit(c),
{
    (c as u32 - 0x30) as nat
}

/// All characters are digits.
pub open spec fn all_digits(digits: Seq<char>) -> bool {
    forall|i: int| 0 <= i < digits.len() ==> is_digit(#[trigger] digits[i])
}

/// The number that digits stand for in decimal notation. No digits stand
/// for zero.
pub open spec fn digits_value(digits: Seq<char>) -> nat
    decreases digits.len(),
{
    if digits.len() == 0 {
        0
    } else {
        digits_value(digits.drop_last()) * 10 + digit_value(digits.last())
    }
}

/// The digits of a number with the sign taken off.
pub open spec fn unsigned_part(text: Seq<char>) -> Seq<char> {
    if text.len() > 0 && (text[0] == '+' || text[0] == '-') {
        text.skip(1)
    } else {
        text
    }
}

/// The integer that a text stands for: an optional sign, `+` or `-`, and
/// one or more digits. Any other text stands for none.
pub open spec fn parsed_integer(text: Seq<char>) -> Option<int> {
    let digits = unsigned_part(text);
    if digits.len() > 0 && all_digits(digits) {
        if text[0] == '-' {
            Some(-(digits_value(digits) as int))
        } else {
            Some(digits_value(digits) as int)
        }
    } else {
        None
    }
}

/// The 64-bit signed integer that a text stands for, if it stands for an
/// integer that has 64 bits.
pub open spec fn parsed_i64(text: Seq<char>) -> Option<i64> {
    match parsed_integer(text) {
        Some(n) => if i64::MIN <= n <= i64::MAX {
            Some(n as i64)
        } else {
            None
        },
        None => None,
    }
}

/// The 32-bit unsigned integer that a text stands for, if it stands for an
/// integer without a minus sign that has 32 bits.
pub open spec fn parsed_u32(text: Seq<char>) -> Option<u32> {
    match parsed_integer(text) {
        Some(n) => if text[0] != '-' && n <= u32::MAX {
            Some(n as u32)
        } else {
            None
        },
        None => None,
    }
}

/// The digits of a part of a text stand for no more than the digits of a
/// longer part from the same beginning.
proof fn lemma_digits_value_grows(digits: Seq<char>, shorter: int, longer: int)
    requires
        0 <= shorter <= longer <= digits.len(),
    ensures
        digits_value(digits.take(shorter)) <= digits_value(digits.take(longer)),
    decreases longer - shorter,
{
    if shorter < longer {
        lemma_digits_value_grows(digits, shorter, longer - 1);
        assert(digits.take(longer).drop_last() =~= digits.take(longer - 1));
    }
}

/// Reads the digits of a text from a given place to the end: returns the
/// number that they stand for, or `None` if there is something else than a
/// digit, no digit at all, or the number is above a limit.
fn read_digits(chars: &Vec<char>, from: usize, limit: u64) -> (value: Option<u64>)
    requires
        from <= chars.len(),
    ensures
        value == if from < chars.len() && all_digits(chars@.skip(from as int)) && digits_value(
            chars@.skip(from as int),
        ) <= limit {
            Some(digits_value(chars@.skip(from as int)) as u64)
        } else {
            None::<u64>
        },
{
    if from == chars.len() {
        return None;
    }
    let ghost digits = chars@.skip(from as int);
    let mut value: u64 = 0;
    let mut i: usize = from;
    while i < chars.len()
        invariant
            from <= i <= chars.len(),
            digits == chars@.skip(from as int),
            all_digits(digits.take(i - from)),
            value == digits_value(digits.take(i - from)),
            value <= limit,
        decreases chars.len() - i,
    {
        let c: u32 = chars[i] as u32;
        proof {
            assert(digits[i - from] == chars@[i as int]);
            assert(digits.take(i - from + 1).drop_last() =~= digits.take(i - from));
            assert(digits.take(i - from + 1).last() == chars@[i as int]);
        }
        if c < 0x30 || c > 0x39 {
            return None;
        }
        let d: u64 = (c - 0x30) as u64;
        if limit < d || value > (limit - d) / 10 {
            proof {
                lemma_digits_value_grows(digits, i - from + 1, digits.len() as int);
                assert(digits.take(digits.len() as int) =~= digits);
            }
            return None;
        }
        value = value * 10 + d;
        proof {
            assert forall|j: int| 0 <= j < i - from + 1 implies is_digit(
                #[trigger] digits.take(i - from + 1)[j],
            ) by {
                if j < i - from {
                    assert(digits.take(i - from)[j] == digits.take(i - from + 1)[j]);
                }
            }
        }
        i = i + 1;
    }
    proof {
        assert(digits.take(digits.len() as int) =~= digits);
    }
    Some(value)
}

/// Parses a 64-bit signed integer in decimal digits.
pub fn parse_i64(text: &str) -> (integer: Option<i64>)
    ensures
        integer == parsed_i64(text@),
{
    let chars = chars_of(text);
    if chars.len() == 0 {
        return None;
    }
    if chars[0] == '-' {
        match read_digits(&chars, 1, 0x8000_0000_0000_0000) {
            Some(magnitude) => {
                if magnitude == 0x8000_0000_0000_0000 {
                    Some(i64::MIN)
                } else {
                    Some(-(magnitude as i64))
                }
            },
            None => None,
        }
    } else if chars[0] == '+' {
        match read_digits(&chars, 1, 0x7FFF_FFFF_FFFF_FFFF) {
            Some(magnitude) => Some(magnitude as i64),
            None => None,
        }
    } else {
        proof {
            assert(chars@.skip(0) =~= chars@);
        }
        match read_digits(&chars, 0, 0x7FFF_FFFF_FFFF_FFFF) {
            Some(magnitude) => Some(magnitude as i64),
            None => None,
        }
    }
}

/// Parses a 32-bit unsigned integer in decimal digits, given as
/// characters.
pub fn parse_u32(chars: &Vec<char>) -> (integer: Option<u32>)
    ensures
        integer == parsed_u32(chars@),
{
    if chars.len() == 0 {
        return None;
    }
    if chars[0] == '-' {
        None
    } else if chars[0] == '+' {
        match read_digits(chars, 1, 0xFFFF_FFFF) {
            Some(value) => Some(value as u32),
            None => None,
        }
    } else {
        proof {
            assert(chars@.skip(0) =~= chars@);
        }
        match read_digits(chars, 0, 0xFFFF_FFFF) {
            Some(value) => Some(value as u32),
            None => None,
        }
    }
}

/// A character is white space: a blank, a tab, an end of line, or one of
/// the other characters that Unicode gives the property `White_Space`.
pub open spec fn is_whitespace(c: char) -> bool {
    let code = c as u32;
    ||| 0x09 <= code <= 0x0D
    ||| code == 0x20
    ||| code == 0x85
    ||| code == 0xA0
    ||| code == 0x1680
    ||| 0x2000 <= code <= 0x200A
    ||| code == 0x2028
    ||| code == 0x2029
    ||| code == 0x202F
    ||| code == 0x205F
    ||| code == 0x3000
}

/// Returns if a character is white space.
pub fn is_white_space(c: char) -> (white: bool)
    ensures
        white == is_whitespace(c),
{
    let code: u32 = c as u32;
    (0x09 <= code && code <= 0x0D) || code == 0x20 || code == 0x85 || code == 0xA0 || code
        == 0x1680 || (0x2000 <= code && code <= 0x200A) || code == 0x2028 || code == 0x2029
        || code == 0x202F || code == 0x205F || code == 0x3000
}

/// The place of the first character from `from` on that is not white
/// space, or the length of the text if there is none.
pub open spec fn start_of_text(text: Seq<char>, from: int) -> int
    decreases text.len() - from,
{
    if from >= text.len() {
        text.len() as int
    } else if !is_whitespace(text[from]) {
        from
    } else {
        start_of_text(text, from + 1)
    }
}

/// The place after the last character before `to` that is not white space,
/// or 0 if there is none.
pub open spec fn end_of_text(text: Seq<char>, to: int) -> int
    decreases to,
{
    if to <= 0 {
        0
    } else if !is_whitespace(text[to - 1]) {
        to
    } else {
        end_of_text(text, to - 1)
    }
}

/// A text without the white space at its beginning and at its end.
pub open spec fn trimmed(text: Seq<char>) -> Seq<char> {
    let start = start_of_text(text, 0);
    let end = end_of_text(text, text.len() as int);
    if start < end {
        text.subrange(start, end)
    } else {
        Seq::<char>::empty()
    }
}

/// Takes the white space off the beginning and the end of a text.
pub fn trim(chars: &Vec<char>) -> (inner: Vec<char>)
    ensures
        inner@ == trimmed(chars@),
{
    let mut start: usize = 0;
    while start < chars.len() && is_white_space(chars[start])
        invariant
            start <= chars.len(),
            start_of_text(chars@, 0) == start_of_text(chars@, start as int),
        decreases chars.len() - start,
    {
        start = start + 1;
    }
    let mut end: usize = chars.len();
    while end > 0 && is_white_space(chars[end - 1])
        invariant
            end <= chars.len(),
            end_of_text(chars@, chars@.len() as int) == end_of_text(chars@, end as int),
        decreases end,
    {
        end = end - 1;
    }
    let mut inner: Vec<char> = Vec::new();
    let mut i: usize = start;
    while i < end
        invariant
            start <= i,
            end <= chars.len(),
            start < end ==> i <= end,
            start < end ==> inner@ == chars@.subrange(start as int, i as int),
            start >= end ==> inner@ == Seq::<char>::empty(),
        decreases end - i,
    {
        inner.push(chars[i]);
        assert(inner@ =~= chars@.subrange(start as int, i + 1));
        i = i + 1;
    }
    assert(start < end ==> inner@ =~= chars@.subrange(start as int, end as int));
    inner
}

/// The pieces between the separators of a text. A text without a separator
/// is one piece, and so is an empty text; a separator at the beginning or
/// at the end has an empty piece on that side.
pub open spec fn pieces(text: Seq<char>, separator: char) -> Seq<Seq<char>>
    decreases text.len(),
{
    if text.len() == 0 {
        seq![Seq::<char>::empty()]
    } else {
        let before = pieces(text.drop_last(), separator);
        if text.last() == separator {
            before.push(Seq::<char>::empty())
        } else {
            before.drop_last().push(before.last().push(text.last()))
        }
    }
}

/// There is at least one piece.
pub proof fn lemma_pieces_len(text: Seq<char>, separator: char)
    ensures
        pieces(text, separator).len() >= 1,
    decreases text.len(),
{
    if text.len() > 0 {
        lemma_pieces_len(text.drop_last(), separator);
    }
}

/// The pieces of characters, as mathematical values.
pub open spec fn pieces_view(parts: Seq<Vec<char>>) -> Seq<Seq<char>> {
    parts.map_values(|part: Vec<char>| part@)
}

/// Cuts a text into the pieces between its separators.
pub fn split(chars: &Vec<char>, separator: char) -> (parts: Vec<Vec<char>>)
    ensures
        pieces_view(parts@) == pieces(chars@, separator),
{
    let mut parts: Vec<Vec<char>> = Vec::new();
    let mut part: Vec<char> = Vec::new();
    let mut i: usize = 0;
    while i < chars.len()
        invariant
            i <= chars.len(),
            pieces_view(parts@).push(part@) == pieces(chars@.take(i as int), separator),
        decreases chars.len() - i,
    {
        let ghost before = pieces(chars@.take(i as int), separator);
        proof {
            assert(chars@.take(i + 1).drop_last() =~= chars@.take(i as int));
            assert(before.last() == part@);
            assert(before.drop_last() =~= pieces_view(parts@));
        }
        if chars[i] == separator {
            let ghost done = pieces_view(parts@);
            parts.push(part);
            part = Vec::new();
            proof {
                assert(pieces_view(parts@) =~= before);
            }
        } else {
            part.push(chars[i]);
        }
        assert(pieces_view(parts@).push(part@) =~= pieces(chars@.take(i + 1), separator));
        i = i + 1;
    }
    proof {
        assert(chars@.take(i as int) =~= chars@);
    }
    parts.push(part);
    parts
}

/// The digit that stands for a number below ten.
pub open spec fn digit_of(n: nat) -> char
    recommends
        n < 10,
{
    (0x30 + n) as char
}

/// A number in decimal digits, without leading zeros.
pub open spec fn decimal(n: nat) -> Seq<char>
    decreases n,
{
    if n < 10 {
        seq![digit_of(n)]
    } else {
        decimal(n / 10).push(digit_of(n % 10))
    }
}

/// The decimal digits of a number stand for the number.
pub proof fn lemma_decimal_is_parsed(n: nat)
    ensures
        decimal(n).len() > 0,
        all_digits(decimal(n)),
        digits_value(decimal(n)) == n,
        parsed_integer(decimal(n)) == Some(n as int),
    decreases n,
{
    let digits = decimal(n);
    assert(digit_of(n % 10) as u32 == 0x30 + n % 10);
    if n < 10 {
        assert(digits.drop_last() =~= Seq::<char>::empty());
        assert(digits_value(Seq::<char>::empty()) == 0);
        assert(digits.last() == digit_of(n));
    } else {
        lemma_decimal_is_parsed(n / 10);
        assert(digits.drop_last() =~= decimal(n / 10));
        assert(digits.last() == digit_of(n % 10));
        assert forall|i: int| 0 <= i < digits.len() implies is_digit(#[trigger] digits[i]) by {
            if i < digits.len() - 1 {
                assert(digits[i] == decimal(n / 10)[i]);
            }
        }
    }
    assert(digits_value(digits) == n);
    assert(is_digit(digits[0]));
    assert(unsigned_part(digits) == digits);
}

/// Returns the digit that stands for a number below ten.
fn digit(n: u64) -> (digit: &'static str)
    requires
        n < 10,
    ensures
        digit@ == seq![digit_of(n as nat)],
{
    proof {
        reveal_strlit("0");
        reveal_strlit("1");
        reveal_strlit("2");
        reveal_strlit("3");
        reveal_strlit("4");
        reveal_strlit("5");
        reveal_strlit("6");
        reveal_strlit("7");
        reveal_strlit("8");
        reveal_strlit("9");
    }
    let digit = if n == 0 {
        "0"
    } else if n == 1 {
        "1"
    } else if n == 2 {
        "2"
    } else if n == 3 {
        "3"
    } else if n == 4 {
        "4"
    } else if n == 5 {
        "5"
    } else if n == 6 {
        "6"
    } else if n == 7 {
        "7"
    } else if n == 8 {
        "8"
    } else {
        "9"
    };
    assert(digit@ =~= seq![digit_of(n as nat)]);
    digit
}

/// Writes a number in decimal digits.
pub fn to_decimal(n: u64) -> (digits: String)
    ensures
        digits@ == decimal(n as nat),
    decreases n,
{
    if n < 10 {
        digit(n).to_string()
    } else {
        let mut digits = to_decimal(n / 10);
        digits.append(digit(n % 10));
        assert(digits@ =~= decimal(n as nat));
        digits
    }
}

} // verus!
