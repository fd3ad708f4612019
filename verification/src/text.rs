//! Characters and strings.

use vstd::prelude::*;

verus! {

/// `char::from_u32`: the character with this code, unless the code is a
/// surrogate or beyond `0x10FFFF`.
#[verifier::external_body]
pub(crate) fn char_from_u32(code: u32) -> (c: Option<char>)
    ensures
        c == (if code <= 0x10FFFF && !(0xD800 <= code <= 0xDFFF) {
            Some(code as char)
        } else {
            None::<char>
        }),
{
    char::from_u32(code)
}

/// The character of an ASCII code.
pub fn char_from_ascii(code: u32) -> (c: char)
    requires
        code < 0x80,
    ensures
        c == code as char,
{
    match char_from_u32(code) {
        Some(c) => c,
        None => ' ',
    }
}

/// `String::from_iter` on characters: the string of these characters.
#[verifier::external_body]
pub(crate) fn string_from_chars(chars: &Vec<char>) -> (s: String)
    ensures
        s@ == chars@,
{
    String::from_iter(chars.iter())
}

/// The characters of a string (`str::chars`, collected).
#[verifier::external_body]
pub(crate) fn str_chars(s: &str) -> (chars: Vec<char>)
    ensures
        chars@ == s@,
{
    s.chars().collect()
}

/// The uppercase hexadecimal digit for `d < 16`.
pub open spec fn hex_digit(d: int) -> char {
    if d < 10 {
        ('0' as int + d) as char
    } else {
        ('A' as int + d - 10) as char
    }
}

/// The uppercase hexadecimal digit for `d`.
pub fn hex_digit_char(d: u32) -> (c: char)
    requires
        d < 16,
    ensures
        c == hex_digit(d as int),
{
    match d {
        0 => '0',
        1 => '1',
        2 => '2',
        3 => '3',
        4 => '4',
        5 => '5',
        6 => '6',
        7 => '7',
        8 => '8',
        9 => '9',
        10 => 'A',
        11 => 'B',
        12 => 'C',
        13 => 'D',
        14 => 'E',
        _ => 'F',
    }
}

/// An ASCII letter or digit.
pub open spec fn is_ascii_alphanumeric(c: char) -> bool {
    ('0' <= c && c <= '9') || ('a' <= c && c <= 'z') || ('A' <= c && c <= 'Z')
}

/// `char::is_ascii_alphanumeric`.
pub fn ascii_alphanumeric(c: char) -> (b: bool)
    ensures
        b == is_ascii_alphanumeric(c),
{
    ('0' <= c && c <= '9') || ('a' <= c && c <= 'z') || ('A' <= c && c <= 'Z')
}

/// A character with the Unicode `White_Space` property (what
/// `char::is_whitespace` tests).
pub open spec fn is_white_space(c: char) -> bool {
    ('\u{9}' <= c && c <= '\u{D}') || c == ' ' || c == '\u{85}' || c == '\u{A0}'
        || c == '\u{1680}' || ('\u{2000}' <= c && c <= '\u{200A}') || c == '\u{2028}'
        || c == '\u{2029}' || c == '\u{202F}' || c == '\u{205F}' || c == '\u{3000}'
}

/// Whether `c` is Unicode whitespace.
pub fn white_space(c: char) -> (b: bool)
    ensures
        b == is_white_space(c),
{
    ('\u{9}' <= c && c <= '\u{D}') || c == ' ' || c == '\u{85}' || c == '\u{A0}'
        || c == '\u{1680}' || ('\u{2000}' <= c && c <= '\u{200A}') || c == '\u{2028}'
        || c == '\u{2029}' || c == '\u{202F}' || c == '\u{205F}' || c == '\u{3000}'
}

/// ASCII whitespace: space, tab, line feed, form feed, carriage return.
pub open spec fn is_ascii_white_space(c: char) -> bool {
    c == ' ' || c == '\t' || c == '\n' || c == '\u{C}' || c == '\r'
}

/// Whether `c` is ASCII whitespace.
pub fn ascii_white_space(c: char) -> (b: bool)
    ensures
        b == is_ascii_white_space(c),
{
    c == ' ' || c == '\t' || c == '\n' || c == '\u{C}' || c == '\r'
}

/// `s` without its leading whitespace.
pub open spec fn trim_start(s: Seq<char>) -> Seq<char>
    decreases s.len(),
{
    if s.len() > 0 && is_white_space(s[0]) {
        trim_start(s.drop_first())
    } else {
        s
    }
}

/// `s` without its trailing whitespace.
pub open spec fn trim_end(s: Seq<char>) -> Seq<char>
    decreases s.len(),
{
    if s.len() > 0 && is_white_space(s.last()) {
        trim_end(s.drop_last())
    } else {
        s
    }
}

/// `s` without leading and trailing whitespace.
pub open spec fn trim(s: Seq<char>) -> Seq<char> {
    trim_end(trim_start(s))
}

/// Dropping whitespace from the front of `s.subrange(a, end)` one character
/// at a time.
proof fn lemma_trim_start_step(s: Seq<char>, a: int)
    requires
        0 <= a < s.len(),
        is_white_space(s[a]),
    ensures
        trim_start(s.subrange(a, s.len() as int)) == trim_start(s.subrange(a + 1, s.len() as int)),
{
    assert(s.subrange(a, s.len() as int).drop_first() =~= s.subrange(a + 1, s.len() as int));
}

/// Dropping whitespace from the back of `t.subrange(0, b)` one character at a
/// time.
proof fn lemma_trim_end_step(t: Seq<char>, b: int)
    requires
        0 < b <= t.len(),
        is_white_space(t[b - 1]),
    ensures
        trim_end(t.subrange(0, b)) == trim_end(t.subrange(0, b - 1)),
{
    assert(t.subrange(0, b).drop_last() =~= t.subrange(0, b - 1));
}

/// The characters of `s` from `start` up to `end`.
pub fn copy_range(s: &Vec<char>, start: usize, end: usize) -> (r: Vec<char>)
    requires
        start <= end <= s.len(),
    ensures
        r@ == s@.subrange(start as int, end as int),
{
    let mut r: Vec<char> = Vec::new();
    let mut k: usize = start;
    while k < end
        invariant
            start <= k <= end <= s.len(),
            r@ == s@.subrange(start as int, k as int),
        decreases end - k,
    {
        r.push(s[k]);
        k = k + 1;
        assert(r@ =~= s@.subrange(start as int, k as int));
    }
    r
}

/// `s` without leading and trailing whitespace (`str::trim`).
pub fn trim_chars(s: &Vec<char>) -> (r: Vec<char>)
    ensures
        r@ == trim(s@),
{
    let n = s.len();
    let mut a: usize = 0;
    assert(s@.subrange(0, n as int) =~= s@);
    while a < n && white_space(s[a])
        invariant
            a <= n == s.len(),
            trim_start(s@) == trim_start(s@.subrange(a as int, n as int)),
        decreases n - a,
    {
        proof {
            lemma_trim_start_step(s@, a as int);
        }
        a = a + 1;
    }
    let ghost t = s@.subrange(a as int, n as int);
    assert(trim_start(s@) == t);
    let mut b: usize = n;
    assert(t.subrange(0, (b - a) as int) =~= t);
    while b > a && white_space(s[b - 1])
        invariant
            a <= b <= n == s.len(),
            t == s@.subrange(a as int, n as int),
            trim_end(t) == trim_end(t.subrange(0, (b - a) as int)),
        decreases b,
    {
        proof {
            lemma_trim_end_step(t, (b - a) as int);
        }
        b = b - 1;
    }
    assert(t.subrange(0, (b - a) as int) =~= s@.subrange(a as int, b as int));
    copy_range(s, a, b)
}

/// Why a decimal integer could not be read (the kinds of
/// `core::num::ParseIntError`).
#[derive(Debug, Clone, Copy, PartialEq, Eq, Structural)]
pub enum IntErrorKind {
    /// The text is empty.
    Empty,
    /// A character is not a decimal digit (or a sign stands alone).
    InvalidDigit,
    /// The value is above the largest of the type.
    PosOverflow,
    /// The value is below the smallest of the type.
    NegOverflow,
}

/// A decimal digit.
pub open spec fn is_digit(c: char) -> bool {
    '0' <= c && c <= '9'
}

/// The value of a decimal digit.
pub open spec fn digit_value(c: char) -> int {
    c as int - '0' as int
}

/// Reads `digits` left to right, stopping at the first character that is not a
/// digit or the first step whose value leaves `min ..= max`; a negative number
/// subtracts its digits.
pub open spec fn accumulate_digits(digits: Seq<char>, negative: bool, min: int, max: int) -> Result<int, IntErrorKind>
    decreases digits.len(),
{
    if digits.len() == 0 {
        Ok(0)
    } else {
        match accumulate_digits(digits.drop_last(), negative, min, max) {
            Err(e) => Err(e),
            Ok(v) => {
                let c = digits.last();
                if !is_digit(c) {
                    Err(IntErrorKind::InvalidDigit)
                } else if negative {
                    let n = v * 10 - digit_value(c);
                    if n < min {
                        Err(IntErrorKind::NegOverflow)
                    } else {
                        Ok(n)
                    }
                } else {
                    let n = v * 10 + digit_value(c);
                    if n > max {
                        Err(IntErrorKind::PosOverflow)
                    } else {
                        Ok(n)
                    }
                }
            },
        }
    }
}

/// Decimal integer syntax as `str::parse` reads it for an integer type with
/// range `min ..= max`: an optional `+` (or `-` where the type is `signed`)
/// followed by digits.
pub open spec fn parse_int(s: Seq<char>, signed: bool, min: int, max: int) -> Result<int, IntErrorKind> {
    if s.len() == 0 {
        Err(IntErrorKind::Empty)
    } else if s.len() == 1 && (s[0] == '+' || s[0] == '-') {
        Err(IntErrorKind::InvalidDigit)
    } else if s[0] == '+' {
        accumulate_digits(s.drop_first(), false, min, max)
    } else if s[0] == '-' && signed {
        accumulate_digits(s.drop_first(), true, min, max)
    } else {
        accumulate_digits(s, false, min, max)
    }
}

/// Once reading the first `j` digits fails, reading all of them fails the same way.
proof fn lemma_accumulate_error(digits: Seq<char>, j: int, negative: bool, min: int, max: int)
    requires
        0 <= j <= digits.len(),
        accumulate_digits(digits.take(j), negative, min, max) is Err,
    ensures
        accumulate_digits(digits, negative, min, max) == accumulate_digits(digits.take(j), negative, min, max),
    decreases digits.len(),
{
    if j == digits.len() {
        assert(digits.take(j) =~= digits);
    } else {
        assert(digits.drop_last().take(j) =~= digits.take(j));
        lemma_accumulate_error(digits.drop_last(), j, negative, min, max);
    }
}

/// Reads a decimal integer of the range `min ..= max` from `s`, as `str::parse`
/// does for the integer type with that range.
pub fn parse_integer(s: &Vec<char>, signed: bool, min: i64, max: i64) -> (r: Result<i64, IntErrorKind>)
    requires
        -0x1_0000_0000 <= min <= 0 <= max <= 0x1_0000_0000,
    ensures
        match r {
            Ok(v) => min <= v <= max && parse_int(s@, signed, min as int, max as int) == Ok::<int, IntErrorKind>(v as int),
            Err(e) => parse_int(s@, signed, min as int, max as int) == Err::<int, IntErrorKind>(e),
        },
{
    let n = s.len();
    if n == 0 {
        return Err(IntErrorKind::Empty);
    }
    if n == 1 && (s[0] == '+' || s[0] == '-') {
        return Err(IntErrorKind::InvalidDigit);
    }
    let negative = s[0] == '-' && signed;
    let start: usize = if s[0] == '+' || negative { 1 } else { 0 };
    let ghost digits = s@.subrange(start as int, n as int);
    proof {
        if start == 1 {
            assert(digits =~= s@.drop_first());
        } else {
            assert(digits =~= s@);
        }
        assert(digits.take(0) =~= Seq::<char>::empty());
        assert(parse_int(s@, signed, min as int, max as int) == accumulate_digits(digits, negative, min as int, max as int));
    }
    let mut v: i64 = 0;
    let mut k: usize = start;
    while k < n
        invariant
            start <= k <= n == s.len(),
            digits == s@.subrange(start as int, n as int),
            -0x1_0000_0000 <= min <= 0 <= max <= 0x1_0000_0000,
            min <= v <= max,
            negative ==> v <= 0,
            !negative ==> v >= 0,
            parse_int(s@, signed, min as int, max as int) == accumulate_digits(digits, negative, min as int, max as int),
            accumulate_digits(digits.take(k - start), negative, min as int, max as int) == Ok::<int, IntErrorKind>(v as int),
        decreases n - k,
    {
        let c = s[k];
        let ghost j = (k - start) as int;
        assert(digits.take(j + 1).drop_last() =~= digits.take(j));
        assert(digits.take(j + 1).last() == c);
        if !('0' <= c && c <= '9') {
            proof {
                lemma_accumulate_error(digits, j + 1, negative, min as int, max as int);
            }
            return Err(IntErrorKind::InvalidDigit);
        }
        let d = (c as u32 - '0' as u32) as i64;
        assert(d == digit_value(c));
        if negative {
            let next = v * 10 - d;
            if next < min {
                proof {
                    lemma_accumulate_error(digits, j + 1, negative, min as int, max as int);
                }
                return Err(IntErrorKind::NegOverflow);
            }
            v = next;
        } else {
            let next = v * 10 + d;
            if next > max {
                proof {
                    lemma_accumulate_error(digits, j + 1, negative, min as int, max as int);
                }
                return Err(IntErrorKind::PosOverflow);
            }
            v = next;
        }
        k = k + 1;
    }
    assert(digits.take(n - start) =~= digits);
    Ok(v)
}

} // verus!
