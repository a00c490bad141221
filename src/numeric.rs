//! Decimal integers: reading a sheet name as a year and writing an integer
//! cell as text.
use vstd::prelude::*;

use crate::text::push_char;

verus! {

pub open spec fn is_digit(c: char) -> bool {
    '0' <= c && c <= '9'
}

pub open spec fn digit_value(c: char) -> int {
    (c as int) - ('0' as int)
}

pub open spec fn all_digits(s: Seq<char>) -> bool {
    forall|i: int| 0 <= i < s.len() ==> is_digit(#[trigger] s[i])
}

/// The value of a run of decimal digits, most significant first.
pub open spec fn digits_value(s: Seq<char>) -> int
    decreases s.len(),
{
    if s.len() == 0 {
        0
    } else {
        digits_value(s.drop_last()) * 10 + digit_value(s.last())
    }
}

/// Number of leading sign characters (`+` or `-`) that the base-10 syntax allows.
pub open spec fn sign_len(s: Seq<char>) -> int {
    if s.len() > 0 && (s[0] == '-' || s[0] == '+') {
        1
    } else {
        0
    }
}

/// An optional sign followed by at least one decimal digit.
pub open spec fn integer_of(s: Seq<char>) -> Option<int> {
    let body = s.subrange(sign_len(s), s.len() as int);
    if body.len() > 0 && all_digits(body) {
        if s[0] == '-' {
            Some(-digits_value(body))
        } else {
            Some(digits_value(body))
        }
    } else {
        None
    }
}

/// The year that a sheet name stands for: a base-10 integer that fits in 32 bits.
pub open spec fn year_of(s: Seq<char>) -> Option<int> {
    match integer_of(s) {
        Some(v) => if i32::MIN <= v <= i32::MAX {
            Some(v)
        } else {
            None
        },
        None => None,
    }
}

/// Reads a sheet name as a year; `None` for anything that is not a
/// base-10 integer in the 32-bit range.
pub fn parse_year(name: &str) -> (r: Option<i32>)
    ensures
        match r {
            Some(y) => year_of(name@) == Some(y as int),
            None => year_of(name@) is None,
        },
{
    let n: usize = name.unicode_len();
    let ghost s = name@;
    if n == 0 {
        return None;
    }
    let first = name.get_char(0);
    let start: usize = if first == '-' || first == '+' { 1 } else { 0 };
    if start == n {
        return None;
    }
    let ghost body = s.subrange(start as int, n as int);
    let limit: i64 = 2147483648;
    let mut acc: i64 = 0;
    let mut i: usize = start;
    while i < n
        invariant
            n == s.len(),
            limit == 2147483648,
            s == name@,
            start == sign_len(s),
            start <= i <= n,
            body == s.subrange(start as int, n as int),
            all_digits(s.subrange(start as int, i as int)),
            0 <= acc <= limit + 1,
            acc <= limit ==> acc == digits_value(s.subrange(start as int, i as int)),
            acc > limit ==> digits_value(s.subrange(start as int, i as int)) > limit,
        decreases n - i,
    {
        let c = name.get_char(i);
        if !(c >= '0' && c <= '9') {
            assert(!all_digits(body)) by {
                assert(body[i - start] == c);
            }
            return None;
        }
        let d: i64 = (c as u32 - '0' as u32) as i64;
        let ghost pre = s.subrange(start as int, i as int);
        let ghost next = s.subrange(start as int, i + 1);
        assert(next.drop_last() =~= pre);
        assert(next.last() == c);
        if acc > limit {
            acc = limit + 1;
        } else {
            acc = acc * 10 + d;
            if acc > limit {
                acc = limit + 1;
            }
        }
        assert(all_digits(next)) by {
            assert forall|j: int| 0 <= j < next.len() implies is_digit(#[trigger] next[j]) by {
                if j < pre.len() {
                    assert(next[j] == pre[j]);
                }
            }
        }
        i = i + 1;
    }
    assert(s.subrange(start as int, i as int) =~= body);
    if first == '-' {
        if acc > limit {
            None
        } else {
            Some((-acc) as i32)
        }
    } else {
        if acc >= limit {
            None
        } else {
            Some(acc as i32)
        }
    }
}

pub open spec fn digit_char(d: nat) -> char {
    if d == 0 { '0' }
    else if d == 1 { '1' }
    else if d == 2 { '2' }
    else if d == 3 { '3' }
    else if d == 4 { '4' }
    else if d == 5 { '5' }
    else if d == 6 { '6' }
    else if d == 7 { '7' }
    else if d == 8 { '8' }
    else { '9' }
}

fn digit_of(d: u64) -> (c: char)
    requires
        d < 10,
    ensures
        c == digit_char(d as nat),
{
    if d == 0 { '0' }
    else if d == 1 { '1' }
    else if d == 2 { '2' }
    else if d == 3 { '3' }
    else if d == 4 { '4' }
    else if d == 5 { '5' }
    else if d == 6 { '6' }
    else if d == 7 { '7' }
    else if d == 8 { '8' }
    else { '9' }
}

/// Decimal digits of a natural number, most significant first, without
/// leading zeros.
pub open spec fn digits_text(m: nat) -> Seq<char>
    decreases m,
{
    if m < 10 {
        seq![digit_char(m)]
    } else {
        digits_text(m / 10).push(digit_char(m % 10))
    }
}

/// The default decimal rendering of an integer: a minus sign for negative
/// values, then the digits of the magnitude.
pub open spec fn decimal_text(n: int) -> Seq<char> {
    if n < 0 {
        seq!['-'] + digits_text((-n) as nat)
    } else {
        digits_text(n as nat)
    }
}

fn push_digits(out: &mut String, m: u64)
    ensures
        final(out)@ == old(out)@ + digits_text(m as nat),
    decreases m,
{
    if m >= 10 {
        push_digits(out, m / 10);
    }
    let c = digit_of(m % 10);
    push_char(out, c);
    assert(final(out)@ =~= old(out)@ + digits_text(m as nat));
}

/// Writes an integer in decimal, as Rust's `to_string` does.
pub fn integer_text(n: i64) -> (r: String)
    ensures
        r@ == decimal_text(n as int),
{
    let mut out = String::new();
    if n < 0 {
        push_char(&mut out, '-');
        let m: u64 = (0i128 - n as i128) as u64;
        push_digits(&mut out, m);
    } else {
        push_digits(&mut out, n as u64);
    }
    assert(out@ =~= decimal_text(n as int));
    out
}

} // verus!
