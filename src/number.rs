//! Field elements written in decimal or in `0x`-prefixed hexadecimal.

use vstd::prelude::*;
use crate::error::ParseError;
use crate::text::{chars_of, lemma_trim_unchanged, trim, trim_bounds};

verus! {

/// `c` is a digit in base `radix` (10 or 16; hexadecimal letters in either case).
pub open spec fn is_digit(c: char, radix: nat) -> bool {
    ('0' <= c && c <= '9') || (radix == 16 && (('a' <= c && c <= 'f') || ('A' <= c && c <= 'F')))
}

/// The value of a digit character.
pub open spec fn digit_value(c: char) -> nat {
    if '0' <= c && c <= '9' {
        (c as nat - '0' as nat) as nat
    } else if 'a' <= c && c <= 'f' {
        (c as nat - 'a' as nat + 10) as nat
    } else {
        (c as nat - 'A' as nat + 10) as nat
    }
}

pub open spec fn all_digits(s: Seq<char>, radix: nat) -> bool {
    forall|i: int| 0 <= i < s.len() ==> is_digit(#[trigger] s[i], radix)
}

/// The number that the digits `s` denote in base `radix`, most significant first.
pub open spec fn digits_value(s: Seq<char>, radix: nat) -> nat
    decreases s.len(),
{
    if s.len() == 0 {
        0
    } else {
        digits_value(s.drop_last(), radix) * radix + digit_value(s.last())
    }
}

/// `t` starts with `0x` or `0X`.
pub open spec fn has_hex_prefix(t: Seq<char>) -> bool {
    t.len() >= 2 && t[0] == '0' && (t[1] == 'x' || t[1] == 'X')
}

/// The result of parsing the digits `body` in base `radix` as a `u64`.
pub open spec fn digits_result(body: Seq<char>, radix: nat) -> Result<u64, ParseError> {
    if body.len() == 0 {
        Err(ParseError::Empty)
    } else if !all_digits(body, radix) {
        Err(ParseError::InvalidDigit)
    } else if digits_value(body, radix) > u64::MAX {
        Err(ParseError::Overflow)
    } else {
        Ok(digits_value(body, radix) as u64)
    }
}

/// The result of parsing a numeric token: after trimming, a `0x` or `0X`
/// prefix selects base 16 for the rest; otherwise the whole token is decimal.
pub open spec fn number_result(s: Seq<char>) -> Result<u64, ParseError> {
    let t = trim(s);
    if has_hex_prefix(t) {
        digits_result(t.subrange(2, t.len() as int), 16)
    } else {
        digits_result(t, 10)
    }
}

fn digit_of(c: char, radix: u32) -> (r: Option<u32>)
    requires
        radix == 10 || radix == 16,
    ensures
        r is Some <==> is_digit(c, radix as nat),
        r is Some ==> r->0 as nat == digit_value(c) && r->0 < radix,
{
    if '0' <= c && c <= '9' {
        Some(c as u32 - '0' as u32)
    } else if radix == 16 && 'a' <= c && c <= 'f' {
        Some(c as u32 - 'a' as u32 + 10)
    } else if radix == 16 && 'A' <= c && c <= 'F' {
        Some(c as u32 - 'A' as u32 + 10)
    } else {
        None
    }
}

proof fn lemma_value_grows(s: Seq<char>, radix: nat, i: int, j: int)
    requires
        radix >= 1,
        0 <= i <= j <= s.len(),
    ensures
        digits_value(s.subrange(0, i), radix) <= digits_value(s.subrange(0, j), radix),
    decreases j - i,
{
    if i < j {
        lemma_value_grows(s, radix, i, j - 1);
        assert(s.subrange(0, j).drop_last() =~= s.subrange(0, j - 1));
        let v = digits_value(s.subrange(0, j - 1), radix);
        assert(v * radix >= v) by (nonlinear_arith)
            requires
                radix >= 1,
        ;
    }
}

/// Parses `s[lo..hi]` as digits in base `radix`.
fn parse_digits(s: &Vec<char>, lo: usize, hi: usize, radix: u32) -> (r: Result<u64, ParseError>)
    requires
        lo <= hi <= s@.len(),
        radix == 10 || radix == 16,
    ensures
        r == digits_result(s@.subrange(lo as int, hi as int), radix as nat),
{
    let ghost body = s@.subrange(lo as int, hi as int);
    if lo == hi {
        return Err(ParseError::Empty);
    }
    let mut i: usize = lo;
    while i < hi
        invariant
            lo <= i <= hi <= s@.len(),
            radix == 10 || radix == 16,
            body == s@.subrange(lo as int, hi as int),
            forall|k: int| 0 <= k < i - lo ==> is_digit(#[trigger] body[k], radix as nat),
        decreases hi - i,
    {
        if digit_of(s[i], radix).is_none() {
            assert(!is_digit(body[i - lo], radix as nat));
            return Err(ParseError::InvalidDigit);
        }
        i = i + 1;
    }
    assert(all_digits(body, radix as nat));
    let mut acc: u64 = 0;
    let mut i: usize = lo;
    while i < hi
        invariant
            lo <= i <= hi <= s@.len(),
            radix == 10 || radix == 16,
            body == s@.subrange(lo as int, hi as int),
            all_digits(body, radix as nat),
            acc as nat == digits_value(body.subrange(0, i - lo), radix as nat),
        decreases hi - i,
    {
        assert(body[i - lo] == s@[i as int]);
        assert(is_digit(body[i - lo], radix as nat));
        let d = digit_of(s[i], radix).unwrap();
        assert(acc as u128 * radix as u128 <= 0xffff_ffff_ffff_ffff_u128 * 16) by (nonlinear_arith)
            requires
                radix <= 16,
        ;
        assert(body.subrange(0, i - lo + 1).drop_last() =~= body.subrange(0, i - lo));
        let next: u128 = acc as u128 * radix as u128 + d as u128;
        if next > u64::MAX as u128 {
            proof {
                lemma_value_grows(body, radix as nat, i - lo + 1, body.len() as int);
                assert(body.subrange(0, body.len() as int) =~= body);
            }
            return Err(ParseError::Overflow);
        }
        acc = next as u64;
        i = i + 1;
    }
    assert(body.subrange(0, hi - lo) =~= body);
    Ok(acc)
}

/// Parses a numeric token held as characters.
pub fn parse_number_chars(s: &Vec<char>) -> (r: Result<u64, ParseError>)
    ensures
        r == number_result(s@),
{
    let (lo, hi) = trim_bounds(s);
    let ghost t = s@.subrange(lo as int, hi as int);
    if hi - lo >= 2 && s[lo] == '0' && (s[lo + 1] == 'x' || s[lo + 1] == 'X') {
        assert(t.subrange(2, t.len() as int) =~= s@.subrange(lo + 2, hi as int));
        parse_digits(s, lo + 2, hi, 16)
    } else {
        parse_digits(s, lo, hi, 10)
    }
}

/// Parses one field element: `0x`/`0X` followed by hexadecimal digits, or
/// decimal digits (a leading zero does not select octal), with surrounding
/// whitespace ignored.
pub fn parse_number(input: &str) -> (r: Result<u64, ParseError>)
    ensures
        r == number_result(input@),
{
    let s = chars_of(input);
    parse_number_chars(&s)
}

/// The lower-case digit character of `d` (below 16).
pub open spec fn digit_char(d: nat) -> char {
    if d < 10 {
        (d + 48) as char
    } else {
        (d + 87) as char
    }
}

/// The decimal numeral of `n`, without leading zeros.
pub open spec fn decimal_text(n: nat) -> Seq<char>
    decreases n,
{
    if n < 10 {
        seq![digit_char(n)]
    } else {
        decimal_text(n / 10).push(digit_char(n % 10))
    }
}

/// The lower-case hexadecimal numeral of `n`, without prefix or leading zeros.
pub open spec fn hex_text(n: nat) -> Seq<char>
    decreases n,
{
    if n < 16 {
        seq![digit_char(n)]
    } else {
        hex_text(n / 16).push(digit_char(n % 16))
    }
}

proof fn lemma_digit_char(d: nat, radix: nat)
    requires
        radix == 10 || radix == 16,
        d < radix,
    ensures
        is_digit(digit_char(d), radix),
        digit_value(digit_char(d)) == d,
{
}

proof fn lemma_push_digit(s: Seq<char>, c: char, radix: nat)
    ensures
        digits_value(s.push(c), radix) == digits_value(s, radix) * radix + digit_value(c),
{
    assert(s.push(c).drop_last() =~= s);
}

pub proof fn lemma_decimal_text(n: nat)
    ensures
        decimal_text(n).len() > 0,
        all_digits(decimal_text(n), 10),
        digits_value(decimal_text(n), 10) == n,
    decreases n,
{
    if n < 10 {
        lemma_digit_char(n, 10);
        lemma_push_digit(Seq::<char>::empty(), digit_char(n), 10);
        assert(seq![digit_char(n)] =~= Seq::<char>::empty().push(digit_char(n)));
    } else {
        lemma_decimal_text(n / 10);
        lemma_digit_char(n % 10, 10);
        lemma_push_digit(decimal_text(n / 10), digit_char(n % 10), 10);
    }
}

pub proof fn lemma_hex_text(n: nat)
    ensures
        hex_text(n).len() > 0,
        all_digits(hex_text(n), 16),
        digits_value(hex_text(n), 16) == n,
    decreases n,
{
    if n < 16 {
        lemma_digit_char(n, 16);
        lemma_push_digit(Seq::<char>::empty(), digit_char(n), 16);
        assert(seq![digit_char(n)] =~= Seq::<char>::empty().push(digit_char(n)));
    } else {
        lemma_hex_text(n / 16);
        lemma_digit_char(n % 16, 16);
        lemma_push_digit(hex_text(n / 16), digit_char(n % 16), 16);
    }
}

/// A decimal numeral whose value fits in 64 bits parses to that value.
pub proof fn lemma_decimal_parses(body: Seq<char>)
    requires
        body.len() > 0,
        all_digits(body, 10),
        digits_value(body, 10) <= u64::MAX,
    ensures
        number_result(body) == Ok::<u64, ParseError>(digits_value(body, 10) as u64),
{
    assert(is_digit(body[0], 10) && is_digit(body.last(), 10));
    lemma_trim_unchanged(body);
}

/// `0x` followed by a hexadecimal numeral whose value fits in 64 bits parses
/// to that value.
pub proof fn lemma_hex_parses(body: Seq<char>)
    requires
        body.len() > 0,
        all_digits(body, 16),
        digits_value(body, 16) <= u64::MAX,
    ensures
        number_result(seq!['0', 'x'] + body) == Ok::<u64, ParseError>(
            digits_value(body, 16) as u64,
        ),
{
    let t = seq!['0', 'x'] + body;
    assert(is_digit(body.last(), 16));
    assert(t.last() == body.last());
    lemma_trim_unchanged(t);
    assert(t.subrange(2, t.len() as int) =~= body);
}

/// Any decimal numeral whose value fits in 64 bits (leading zeros allowed)
/// parses to its value, and so does the `0x` hexadecimal numeral of that
/// value: the two parse to the same field element.
pub proof fn lemma_decimal_and_hex_agree(d: Seq<char>)
    requires
        d.len() > 0,
        all_digits(d, 10),
        digits_value(d, 10) <= u64::MAX,
    ensures
        number_result(d) == Ok::<u64, ParseError>(digits_value(d, 10) as u64),
        number_result(seq!['0', 'x'] + hex_text(digits_value(d, 10))) == number_result(d),
{
    lemma_decimal_parses(d);
    lemma_hex_text(digits_value(d, 10));
    lemma_hex_parses(hex_text(digits_value(d, 10)));
}

} // verus!
