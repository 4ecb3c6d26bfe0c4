//! Decimal numbers in text: what std's integer parsing and formatting do, and
//! the grammar of floating-point literals.

use vstd::prelude::*;
use crate::lexer::digit_char;

verus! {

/// The value of a run of decimal digits.
pub open spec fn digits_value(d: Seq<char>) -> int
    decreases d.len(),
{
    if d.len() == 0 {
        0
    } else {
        digits_value(d.drop_last()) * 10 + (d.last() as int - '0' as int)
    }
}

/// A non-empty run of decimal digits.
pub open spec fn all_digits(d: Seq<char>) -> bool {
    d.len() > 0 && forall|i: int| 0 <= i < d.len() ==> digit_char(#[trigger] d[i])
}

/// The value of an optional sign followed by decimal digits.
pub open spec fn signed_decimal(s: Seq<char>) -> Option<int> {
    if s.len() > 0 && s[0] == '-' && all_digits(s.drop_first()) {
        Some(-digits_value(s.drop_first()))
    } else if s.len() > 0 && s[0] == '+' && all_digits(s.drop_first()) {
        Some(digits_value(s.drop_first()))
    } else if all_digits(s) {
        Some(digits_value(s))
    } else {
        None
    }
}

/// What parsing `s` as an `i64` gives: a signed decimal that fits.
pub open spec fn int_from_text(s: Seq<char>) -> Option<i64> {
    match signed_decimal(s) {
        Some(v) => if i64::MIN <= v <= i64::MAX {
            Some(v as i64)
        } else {
            None
        },
        None => None,
    }
}

/// The decimal digit of `d`, for `d` in 0..=9.
pub open spec fn digit_of(d: int) -> char {
    if d == 0 {
        '0'
    } else if d == 1 {
        '1'
    } else if d == 2 {
        '2'
    } else if d == 3 {
        '3'
    } else if d == 4 {
        '4'
    } else if d == 5 {
        '5'
    } else if d == 6 {
        '6'
    } else if d == 7 {
        '7'
    } else if d == 8 {
        '8'
    } else {
        '9'
    }
}

/// The decimal digits of `n`, without leading zeros.
pub open spec fn decimal_text(n: nat) -> Seq<char>
    decreases n,
{
    if n < 10 {
        seq![digit_of(n as int)]
    } else {
        decimal_text(n / 10).push(digit_of((n % 10) as int))
    }
}

/// How an `i64` is written: a minus sign when negative, then its decimal digits.
pub open spec fn int_to_text(i: i64) -> Seq<char> {
    if i < 0 {
        seq!['-'] + decimal_text((-(i as int)) as nat)
    } else {
        decimal_text(i as nat)
    }
}

/// Relies on `str::chars`: the characters of `s`, in order.
#[verifier::external_body]
pub(crate) fn chars_of(s: &str) -> (r: Vec<char>)
    ensures
        r@ == s@,
{
    s.chars().collect()
}

/// Relies on `String`'s `FromIterator<&char>`: the string of those characters.
#[verifier::external_body]
pub(crate) fn string_from_chars(cs: &[char]) -> (r: String)
    ensures
        r@ == cs@,
{
    cs.iter().collect()
}

/// Whether `a` and `b` hold the same characters.
pub fn text_eq(a: &str, b: &str) -> (r: bool)
    ensures
        r == (a@ == b@),
{
    let x = chars_of(a);
    let y = chars_of(b);
    if x.len() != y.len() {
        return false;
    }
    let mut i: usize = 0;
    while i < x.len()
        invariant
            x@ == a@,
            y@ == b@,
            x@.len() == y@.len(),
            0 <= i <= x@.len(),
            forall|k: int| 0 <= k < i ==> x@[k] == y@[k],
        decreases x@.len() - i,
    {
        if x[i] != y[i] {
            proof {
                assert(x@[i as int] != y@[i as int]);
                assert(x@ != y@);
            }
            return false;
        }
        i = i + 1;
    }
    proof {
        assert(x@ =~= y@);
    }
    true
}

/// Relies on `i64`'s `FromStr`: an optional `+` or `-` followed by one or more
/// decimal digits, whose value fits in an `i64`; anything else is an error.
#[verifier::external_body]
pub(crate) fn parse_i64(s: &str) -> (r: Option<i64>)
    ensures
        r == int_from_text(s@),
{
    s.parse::<i64>().ok()
}

/// Relies on `String::push_str`: appends the characters of `t`.
#[verifier::external_body]
pub(crate) fn push_str(buf: &mut String, t: &str)
    ensures
        final(buf)@ == old(buf)@ + t@,
{
    buf.push_str(t)
}

/// Relies on `String::push`: appends the character `c`.
#[verifier::external_body]
pub(crate) fn push_char(buf: &mut String, c: char)
    ensures
        final(buf)@ == old(buf)@.push(c),
{
    buf.push(c)
}

/// Relies on `i64`'s `Display`: the decimal form, with `-` when negative.
#[verifier::external_body]
pub(crate) fn int_text(i: i64) -> (r: String)
    ensures
        r@ == int_to_text(i),
{
    format!("{i}")
}

/// The end of the run of decimal digits that starts at `i`.
pub open spec fn digit_run_end(t: Seq<char>, i: int) -> int
    decreases t.len() - i,
{
    if 0 <= i < t.len() && digit_char(t[i]) {
        digit_run_end(t, i + 1)
    } else {
        i
    }
}

/// `c` is `w`, or the upper case ASCII letter of `w`.
pub open spec fn same_letter(c: char, w: char) -> bool {
    c == w || ('A' <= c && c <= 'Z' && (c as u32) + 32 == (w as u32))
}

/// `t` equals `word` (lower case ASCII) when compared without regard to case.
pub open spec fn equals_ignoring_case(t: Seq<char>, word: Seq<char>) -> bool {
    t.len() == word.len() && forall|i: int| 0 <= i < t.len() ==> same_letter(#[trigger] t[i], word[i])
}

/// Whether `t` ends, from `i` on, with an exponent: `e` or `E`, an optional
/// sign, and one or more digits.
pub open spec fn exponent_from(t: Seq<char>, i: int) -> bool {
    0 <= i < t.len() && (t[i] == 'e' || t[i] == 'E') && {
        let k = if i + 1 < t.len() && (t[i + 1] == '+' || t[i + 1] == '-') {
            i + 2
        } else {
            i + 1
        };
        k < t.len() && digit_run_end(t, k) == t.len()
    }
}

/// Whether `t` (without sign) is a decimal number: digits with an optional
/// point, at least one digit, and an optional exponent.
pub open spec fn decimal_number(t: Seq<char>) -> bool {
    let a = digit_run_end(t, 0);
    let (has_digits, rest) = if a < t.len() && t[a] == '.' {
        let b = digit_run_end(t, a + 1);
        (a > 0 || b > a + 1, b)
    } else {
        (a > 0, a)
    };
    has_digits && (rest == t.len() || exponent_from(t, rest))
}

/// Whether `s` is a floating-point literal in the grammar that std's `f64`
/// parsing accepts: an optional sign, then `inf`, `infinity` or `nan` in any
/// case, or a decimal number.
pub open spec fn float_literal(s: Seq<char>) -> bool {
    let t = if s.len() > 0 && (s[0] == '+' || s[0] == '-') {
        s.drop_first()
    } else {
        s
    };
    equals_ignoring_case(t, seq!['i', 'n', 'f']) || equals_ignoring_case(
        t,
        seq!['i', 'n', 'f', 'i', 'n', 'i', 't', 'y'],
    ) || equals_ignoring_case(t, seq!['n', 'a', 'n']) || decimal_number(t)
}

pub fn digit_run(t: &[char], i: usize) -> (r: usize)
    requires
        i <= t@.len(),
    ensures
        r == digit_run_end(t@, i as int),
        i <= r <= t@.len(),
{
    let mut j: usize = i;
    while j < t.len() && '0' <= t[j] && t[j] <= '9'
        invariant
            i <= j <= t@.len(),
            digit_run_end(t@, j as int) == digit_run_end(t@, i as int),
        decreases t@.len() - j,
    {
        j = j + 1;
    }
    j
}

fn is_exponent_from(t: &[char], i: usize) -> (r: bool)
    requires
        i <= t@.len(),
    ensures
        r == exponent_from(t@, i as int),
{
    if i < t.len() && (t[i] == 'e' || t[i] == 'E') {
        let k: usize = if i + 1 < t.len() && (t[i + 1] == '+' || t[i + 1] == '-') {
            i + 2
        } else {
            i + 1
        };
        k < t.len() && digit_run(t, k) == t.len()
    } else {
        false
    }
}

fn is_decimal_number(t: &[char]) -> (r: bool)
    ensures
        r == decimal_number(t@),
{
    let a = digit_run(t, 0);
    let has_digits: bool;
    let rest: usize;
    if a < t.len() && t[a] == '.' {
        let b = digit_run(t, a + 1);
        has_digits = a > 0 || b > a + 1;
        rest = b;
    } else {
        has_digits = a > 0;
        rest = a;
    }
    has_digits && (rest == t.len() || is_exponent_from(t, rest))
}

/// Whether `t` equals the lower case word `word` without regard to case.
pub fn equals_word_ignoring_case(t: &[char], word: &[char]) -> (r: bool)
    ensures
        r == equals_ignoring_case(t@, word@),
{
    if t.len() != word.len() {
        return false;
    }
    let mut i: usize = 0;
    while i < t.len()
        invariant
            t@.len() == word@.len(),
            0 <= i <= t@.len(),
            forall|k: int| 0 <= k < i ==> same_letter(#[trigger] t@[k], word@[k]),
        decreases t@.len() - i,
    {
        let c = t[i];
        let w = word[i];
        if !(c == w || ('A' <= c && c <= 'Z' && (c as u32) + 32 == (w as u32))) {
            return false;
        }
        i = i + 1;
    }
    true
}

/// Whether `s` reads as a floating-point number.
pub fn is_float_literal(s: &[char]) -> (r: bool)
    ensures
        r == float_literal(s@),
{
    let t: &[char] = if s.len() > 0 && (s[0] == '+' || s[0] == '-') {
        &s[1..s.len()]
    } else {
        s
    };
    proof {
        if s@.len() > 0 && (s@[0] == '+' || s@[0] == '-') {
            assert(t@ =~= s@.drop_first());
        }
    }
    let inf = vec!['i', 'n', 'f'];
    let infinity = vec!['i', 'n', 'f', 'i', 'n', 'i', 't', 'y'];
    let nan = vec!['n', 'a', 'n'];
    proof {
        assert(inf@ =~= seq!['i', 'n', 'f']);
        assert(infinity@ =~= seq!['i', 'n', 'f', 'i', 'n', 'i', 't', 'y']);
        assert(nan@ =~= seq!['n', 'a', 'n']);
    }
    equals_word_ignoring_case(t, inf.as_slice()) || equals_word_ignoring_case(t, infinity.as_slice())
        || equals_word_ignoring_case(t, nan.as_slice()) || is_decimal_number(t)
}

} // verus!
