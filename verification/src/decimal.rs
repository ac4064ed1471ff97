//! Decimal integers as text: the grammar, reading and writing.

use vstd::prelude::*;
use crate::text::is_space;

verus! {

/// An ASCII decimal digit.
pub open spec fn is_digit(c: char) -> bool {
    '0' <= c && c <= '9'
}

/// The number a decimal digit stands for.
pub open spec fn digit_value(c: char) -> int {
    c as u32 as int - 48
}

/// The decimal digit for a number below ten.
pub open spec fn digit_char(d: int) -> char {
    (d + 48) as u8 as char
}

/// Every character of `s` is a decimal digit.
pub open spec fn all_digits(s: Seq<char>) -> bool {
    forall|i: int| 0 <= i < s.len() ==> is_digit(#[trigger] s[i])
}

/// The number written by a run of decimal digits, most significant first.
pub open spec fn digits_value(s: Seq<char>) -> nat
    decreases s.len(),
{
    if s.len() == 0 {
        0
    } else {
        (digits_value(s.drop_last()) * 10 + digit_value(s.last())) as nat
    }
}

/// The integer written by `s`: an optional sign followed by at least one
/// decimal digit and nothing else. `None` for any other text.
pub open spec fn integer_text(s: Seq<char>) -> Option<int> {
    if s.len() > 0 && (s[0] == '-' || s[0] == '+') {
        let body = s.subrange(1, s.len() as int);
        if body.len() > 0 && all_digits(body) {
            if s[0] == '-' {
                Some(-(digits_value(body) as int))
            } else {
                Some(digits_value(body) as int)
            }
        } else {
            None
        }
    } else if s.len() > 0 && all_digits(s) {
        Some(digits_value(s) as int)
    } else {
        None
    }
}

/// The integer written by `s` when it fits the inclusive range `lo..=hi`.
pub open spec fn bounded_integer_text(s: Seq<char>, lo: int, hi: int) -> Option<int> {
    match integer_text(s) {
        Some(v) => if lo <= v <= hi {
            Some(v)
        } else {
            None
        },
        None => None,
    }
}

/// The decimal digits of `n`, most significant first, without leading zeros.
pub open spec fn decimal_digits(n: nat) -> Seq<char>
    decreases n,
{
    if n < 10 {
        seq![digit_char(n as int)]
    } else {
        decimal_digits(n / 10).push(digit_char((n % 10) as int))
    }
}

/// The decimal text of `v`: its digits, after a minus sign when negative.
pub open spec fn decimal_text(v: int) -> Seq<char> {
    if v < 0 {
        seq!['-'] + decimal_digits((-v) as nat)
    } else {
        decimal_digits(v as nat)
    }
}

/// Reads the digits `s[start..]` as a number no greater than `limit`.
fn parse_magnitude(s: &[char], start: usize, limit: u64) -> (r: Option<u64>)
    requires
        start <= s.len(),
    ensures
        r is Some <==> {
            &&& start < s.len()
            &&& all_digits(s@.skip(start as int))
            &&& digits_value(s@.skip(start as int)) <= limit
        },
        r is Some ==> r->0 == digits_value(s@.skip(start as int)),
{
    let ghost body = s@.skip(start as int);
    if start == s.len() {
        return None;
    }
    let mut acc: u64 = 0;
    let mut i: usize = start;
    while i < s.len()
        invariant
            start <= i <= s.len(),
            body == s@.skip(start as int),
            all_digits(body.take(i - start)),
            acc == digits_value(body.take(i - start)),
            acc <= limit,
        decreases s.len() - i,
    {
        let c = s[i];
        proof {
            assert(body.take(i - start + 1).drop_last() =~= body.take(i - start));
            assert(body.take(i - start + 1).last() == c);
        }
        if !(c >= '0' && c <= '9') {
            assert(!is_digit(body[i - start]));
            return None;
        }
        let d: u64 = (c as u32 - 48) as u64;
        if limit < d || acc > (limit - d) / 10 {
            proof {
                assert(all_digits(body.take(i - start + 1)));
                if all_digits(body) {
                    lemma_digits_value_grows(body, i - start + 1);
                }
            }
            return None;
        }
        acc = acc * 10 + d;
        i = i + 1;
    }
    proof {
        assert(body.take(i - start) =~= body);
    }
    Some(acc)
}

/// Reads a signed 64-bit integer from `s`.
///
/// Succeeds exactly when `s` is an optional sign followed by one or more
/// decimal digits whose value fits the type.
pub fn parse_i64(s: &[char]) -> (r: Option<i64>)
    ensures
        match r {
            Some(v) => bounded_integer_text(s@, i64::MIN as int, i64::MAX as int) == Some(v as int),
            None => bounded_integer_text(s@, i64::MIN as int, i64::MAX as int) is None,
        },
{
    if s.len() == 0 {
        return None;
    }
    let first = s[0];
    proof {
        assert(s@.subrange(1, s@.len() as int) =~= s@.skip(1));
        assert(s@.skip(0) =~= s@);
    }
    if first == '-' {
        match parse_magnitude(s, 1, 0x8000_0000_0000_0000) {
            Some(m) => if m == 0x8000_0000_0000_0000 {
                Some(i64::MIN)
            } else {
                Some(-(m as i64))
            },
            None => None,
        }
    } else if first == '+' {
        match parse_magnitude(s, 1, 0x7fff_ffff_ffff_ffff) {
            Some(m) => Some(m as i64),
            None => None,
        }
    } else {
        match parse_magnitude(s, 0, 0x7fff_ffff_ffff_ffff) {
            Some(m) => Some(m as i64),
            None => None,
        }
    }
}

/// Reads a signed 32-bit integer from `s`, by the same grammar as [`parse_i64`].
pub fn parse_i32(s: &[char]) -> (r: Option<i32>)
    ensures
        match r {
            Some(v) => bounded_integer_text(s@, i32::MIN as int, i32::MAX as int) == Some(v as int),
            None => bounded_integer_text(s@, i32::MIN as int, i32::MAX as int) is None,
        },
{
    if s.len() == 0 {
        return None;
    }
    let first = s[0];
    proof {
        assert(s@.subrange(1, s@.len() as int) =~= s@.skip(1));
        assert(s@.skip(0) =~= s@);
    }
    if first == '-' {
        match parse_magnitude(s, 1, 0x8000_0000) {
            Some(m) => Some((-(m as i64)) as i32),
            None => None,
        }
    } else if first == '+' {
        match parse_magnitude(s, 1, 0x7fff_ffff) {
            Some(m) => Some(m as i32),
            None => None,
        }
    } else {
        match parse_magnitude(s, 0, 0x7fff_ffff) {
            Some(m) => Some(m as i32),
            None => None,
        }
    }
}

/// Appends the decimal digits of `n` to `out`.
pub fn push_unsigned(out: &mut String, n: u64)
    ensures
        final(out)@ == old(out)@ + decimal_digits(n as nat),
    decreases n,
{
    if n >= 10 {
        push_unsigned(out, n / 10);
    }
    let d: u8 = (n % 10) as u8;
    out.push((d + 48) as char);
    assert(out@ =~= old(out)@ + decimal_digits(n as nat));
}

/// Appends the decimal text of `v` to `out`.
pub fn push_signed(out: &mut String, v: i64)
    ensures
        final(out)@ == old(out)@ + decimal_text(v as int),
{
    if v < 0 {
        out.push('-');
        let magnitude: u64 = if v == i64::MIN {
            0x8000_0000_0000_0000
        } else {
            (-v) as u64
        };
        push_unsigned(out, magnitude);
        assert(out@ =~= old(out)@ + decimal_text(v as int));
    } else {
        push_unsigned(out, v as u64);
    }
}

/// The decimal text of `v` as a string of its own.
pub fn decimal_string(v: i64) -> (text: String)
    ensures
        text@ == decimal_text(v as int),
{
    let mut text = String::new();
    push_signed(&mut text, v);
    assert(Seq::<char>::empty() + decimal_text(v as int) =~= decimal_text(v as int));
    text
}

/// Appending digits never makes the written number smaller.
pub proof fn lemma_digits_value_grows(s: Seq<char>, k: int)
    requires
        all_digits(s),
        0 <= k <= s.len(),
    ensures
        digits_value(s.take(k)) <= digits_value(s),
    decreases s.len() - k,
{
    if k < s.len() {
        lemma_digits_value_grows(s, k + 1);
        assert(s.take(k + 1).drop_last() =~= s.take(k));
        assert(is_digit(s[k]));
        assert(s.take(k + 1).last() == s[k]);
    } else {
        assert(s.take(k) =~= s);
    }
}

/// The digit written for a number below ten stands for that number.
pub proof fn lemma_digit_char(d: int)
    requires
        0 <= d < 10,
    ensures
        is_digit(digit_char(d)),
        digit_value(digit_char(d)) == d,
        digit_char(d) != ',',
        digit_char(d) != '-',
        digit_char(d) != '+',
        digit_char(d) != '\n',
        !is_space(digit_char(d)),
{
    let byte = (d + 48) as u8;
    assert(48 <= byte <= 57);
    assert(byte as char as u32 == byte as u32);
}

/// The decimal digits of a number are digits, at least one of them, and
/// they write that number.
pub proof fn lemma_decimal_digits(n: nat)
    ensures
        decimal_digits(n).len() >= 1,
        all_digits(decimal_digits(n)),
        digits_value(decimal_digits(n)) == n,
    decreases n,
{
    if n < 10 {
        lemma_digit_char(n as int);
        let s = decimal_digits(n);
        assert(s.drop_last() =~= Seq::<char>::empty());
        assert(digits_value(s.drop_last()) == 0);
    } else {
        lemma_decimal_digits(n / 10);
        lemma_digit_char((n % 10) as int);
        let s = decimal_digits(n);
        assert(s.drop_last() =~= decimal_digits(n / 10));
        assert(s.last() == digit_char((n % 10) as int));
    }
}

/// Reading back the decimal text of an integer gives that integer.
pub proof fn lemma_decimal_round_trip(v: int)
    ensures
        integer_text(decimal_text(v)) == Some(v),
{
    if v < 0 {
        let digits = decimal_digits((-v) as nat);
        lemma_decimal_digits((-v) as nat);
        let s = decimal_text(v);
        assert(s[0] == '-');
        assert(s.subrange(1, s.len() as int) =~= digits);
    } else {
        lemma_decimal_digits(v as nat);
        let s = decimal_text(v);
        assert(is_digit(s[0]));
    }
}

/// Decimal text consists of digits and at most a leading minus sign, so it
/// holds no comma, no line feed and no white space.
pub proof fn lemma_decimal_text_is_plain(v: int)
    ensures
        decimal_text(v).len() >= 1,
        forall|i: int|
            0 <= i < decimal_text(v).len() ==> {
                let c = #[trigger] decimal_text(v)[i];
                is_digit(c) || c == '-'
            },
        !decimal_text(v).contains(','),
        !decimal_text(v).contains('\n'),
        !is_space(decimal_text(v).first()),
        !is_space(decimal_text(v).last()),
{
    let s = decimal_text(v);
    if v < 0 {
        lemma_decimal_digits((-v) as nat);
        let digits = decimal_digits((-v) as nat);
        assert forall|i: int| 0 <= i < s.len() implies is_digit(#[trigger] s[i]) || s[i] == '-' by {
            if i > 0 {
                assert(s[i] == digits[i - 1]);
            }
        }
    } else {
        lemma_decimal_digits(v as nat);
    }
    assert(is_digit(s.last()) || s.last() == '-');
    assert(is_digit(s.first()) || s.first() == '-');
}

} // verus!
