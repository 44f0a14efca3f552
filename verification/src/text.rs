//! Conversions between strings and sequences of characters, and the parsing
//! of integer literals.

use vstd::prelude::*;

verus! {

/// # The characters of a string, in order
pub fn chars_of(text: &str) -> (result: Vec<char>)
    ensures
        result@ == text@,
{
    let mut result: Vec<char> = Vec::new();
    for c in iter: text.chars()
        invariant
            iter.seq() == text@,
            result@ == text@.take(iter.index() as int),
    {
        result.push(c);
    }
    assert(result@ =~= text@);
    result
}

/// # A string made of the given characters
///
/// Calls `String::from_iter` on the characters. Trusted: the contract claims
/// that the result consists of exactly those characters, in order.
#[verifier::external_body]
pub(crate) fn string_of(chars: &[char]) -> (result: String)
    ensures
        result@ == chars@,
{
    String::from_iter(chars.iter())
}

/// Whether `c` is an ASCII decimal digit
pub open spec fn is_digit(c: char) -> bool {
    '0' <= c <= '9'
}

/// The value of an ASCII decimal digit
pub open spec fn digit_value(c: char) -> int {
    (c as int) - ('0' as int)
}

/// Whether `s` is a non-empty sequence of decimal digits
pub open spec fn all_digits(s: Seq<char>) -> bool {
    s.len() > 0 && forall|i: int| 0 <= i < s.len() ==> is_digit(s[i])
}

/// The value of a sequence of decimal digits
pub open spec fn digits_value(s: Seq<char>) -> int
    decreases s.len(),
{
    if s.len() == 0 {
        0
    } else {
        digits_value(s.drop_last()) * 10 + digit_value(s.last())
    }
}

/// The integer that `s` denotes: an optional sign, followed by decimal digits
pub open spec fn integer_value(s: Seq<char>) -> Option<int> {
    if s.len() > 0 && (s[0] == '-' || s[0] == '+') {
        if all_digits(s.skip(1)) {
            if s[0] == '-' {
                Some(-digits_value(s.skip(1)))
            } else {
                Some(digits_value(s.skip(1)))
            }
        } else {
            None
        }
    } else if all_digits(s) {
        Some(digits_value(s))
    } else {
        None
    }
}

/// The `i32` that `s` denotes, if it denotes one: what `str::parse::<i32>`
/// returns
pub open spec fn spec_parse_i32(s: Seq<char>) -> Option<i32> {
    match integer_value(s) {
        Some(v) => if i32::MIN <= v <= i32::MAX {
            Some(v as i32)
        } else {
            None
        },
        None => None,
    }
}

proof fn lemma_digits_value_nonnegative(s: Seq<char>)
    requires
        forall|i: int| 0 <= i < s.len() ==> is_digit(s[i]),
    ensures
        digits_value(s) >= 0,
    decreases s.len(),
{
    if s.len() > 0 {
        lemma_digits_value_nonnegative(s.drop_last());
    }
}

/// Parse the digits of `s`, starting at `start`, bounded by `limit`
fn parse_digits(s: &Vec<char>, start: usize, limit: i64) -> (result: Option<i64>)
    requires
        start <= s@.len(),
        0 <= limit <= 4294967296,
    ensures
        match result {
            Some(v) => all_digits(s@.skip(start as int)) && v == digits_value(s@.skip(
                start as int,
            )) && 0 <= v <= limit,
            None => !all_digits(s@.skip(start as int)) || digits_value(s@.skip(start as int))
                > limit,
        },
{
    if start == s.len() {
        return None;
    }
    let mut value: i64 = 0;
    let mut i: usize = start;
    while i < s.len()
        invariant
            start <= i <= s@.len(),
            start < s@.len(),
            0 <= limit <= 4294967296,
            forall|j: int| start <= j < i ==> is_digit(s@[j]),
            value == digits_value(s@.subrange(start as int, i as int)),
            0 <= value <= limit,
        decreases s@.len() - i,
    {
        let c = s[i];
        if !('0' <= c && c <= '9') {
            assert(!is_digit(s@.skip(start as int)[i - start]));
            return None;
        }
        let d = (c as u32 - '0' as u32) as i64;
        assert(s@.subrange(start as int, i + 1).drop_last() =~= s@.subrange(
            start as int,
            i as int,
        ));
        let next = value * 10 + d;
        if next > limit {
            proof {
                let rest = s@.skip(start as int);
                if all_digits(rest) {
                    lemma_digits_value_prefix_bound(rest, (i + 1 - start) as int);
                    assert(rest.take((i + 1 - start) as int) =~= s@.subrange(
                        start as int,
                        i + 1,
                    ));
                }
            }
            return None;
        }
        value = next;
        i = i + 1;
    }
    assert(s@.subrange(start as int, s@.len() as int) =~= s@.skip(start as int));
    Some(value)
}

/// The value of digits only grows, when more digits are appended
proof fn lemma_digits_value_prefix_bound(s: Seq<char>, n: int)
    requires
        0 <= n <= s.len(),
        forall|i: int| 0 <= i < s.len() ==> is_digit(s[i]),
    ensures
        digits_value(s) >= digits_value(s.take(n)),
    decreases s.len(),
{
    if n < s.len() {
        lemma_digits_value_prefix_bound(s.drop_last(), n);
        assert(s.drop_last().take(n) =~= s.take(n));
        lemma_digits_value_nonnegative(s.drop_last());
        assert(digits_value(s) == digits_value(s.drop_last()) * 10 + digit_value(s.last()));
    } else {
        assert(s.take(n) =~= s);
    }
}

/// # Parse an `i32` from its decimal representation
///
/// Accepts what `str::parse::<i32>` accepts: an optional `+` or `-`, followed
/// by at least one decimal digit, denoting a value within the range of `i32`.
pub fn parse_i32(s: &Vec<char>) -> (result: Option<i32>)
    ensures
        result == spec_parse_i32(s@),
{
    if s.len() > 0 && (s[0] == '-' || s[0] == '+') {
        let negative = s[0] == '-';
        let limit: i64 = if negative {
            2147483648
        } else {
            2147483647
        };
        match parse_digits(s, 1, limit) {
            Some(v) => {
                if negative {
                    Some((-v) as i32)
                } else {
                    Some(v as i32)
                }
            },
            None => None,
        }
    } else {
        match parse_digits(s, 0, 2147483647) {
            Some(v) => {
                assert(s@.skip(0) =~= s@);
                Some(v as i32)
            },
            None => {
                assert(s@.skip(0) =~= s@);
                None
            },
        }
    }
}

/// The character of a decimal digit
pub open spec fn digit_char(d: nat) -> char {
    (('0' as nat) + d) as char
}

/// The decimal digits of a natural number, the most significant first
pub open spec fn decimal_digits(n: nat) -> Seq<char>
    decreases n,
{
    if n < 10 {
        seq![digit_char(n)]
    } else {
        decimal_digits(n / 10).push(digit_char(n % 10))
    }
}

/// An integer written in decimal, with a minus sign where it is negative
pub open spec fn decimal(value: int) -> Seq<char> {
    if value < 0 {
        seq!['-'] + decimal_digits((-value) as nat)
    } else {
        decimal_digits(value as nat)
    }
}

/// Append the decimal digits of a number
fn push_digits(out: &mut Vec<char>, n: u32)
    ensures
        final(out)@ == old(out)@ + decimal_digits(n as nat),
    decreases n,
{
    if n >= 10 {
        push_digits(out, n / 10);
    }
    let d = n % 10;
    let c = char_of_digit(d);
    out.push(c);
    proof {
        if n >= 10 {
            assert(decimal_digits(n as nat) == decimal_digits((n / 10) as nat).push(digit_char((n % 10) as nat)));
        }
    }
}

/// The character of a decimal digit
fn char_of_digit(d: u32) -> (result: char)
    requires
        d < 10,
    ensures
        result == digit_char(d as nat),
{
    match d {
        0 => '0',
        1 => '1',
        2 => '2',
        3 => '3',
        4 => '4',
        5 => '5',
        6 => '6',
        7 => '7',
        8 => '8',
        _ => '9',
    }
}

/// # A number written in decimal
pub fn decimal_string(value: i32) -> (result: String)
    ensures
        result@ == decimal(value as int),
{
    let mut chars: Vec<char> = Vec::new();
    if value < 0 {
        chars.push('-');
        let magnitude: u32 = (-(value as i64)) as u32;
        push_digits(&mut chars, magnitude);
    } else {
        push_digits(&mut chars, value as u32);
    }
    string_of(chars.as_slice())
}

} // verus!
