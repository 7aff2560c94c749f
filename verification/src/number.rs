//! Decimal integers as `str::parse` reads them: `i64` (with an optional sign)
//! and `usize` (with an optional `+`), with the reason for a refusal.
use vstd::prelude::*;
use crate::text::chars_of;

verus! {

/// Why a text is not a `usize` (the kinds of `std::num::ParseIntError`).
#[derive(Debug, Clone, Copy, PartialEq, Eq, Structural)]
pub enum IntErrorKind {
    Empty,
    InvalidDigit,
    PosOverflow,
}

pub open spec fn is_digit(c: char) -> bool {
    '0' <= c && c <= '9'
}

pub open spec fn digit_value(c: char) -> int {
    (c as int) - ('0' as int)
}

/// The number written by the first `n` characters of `s` as decimal digits.
pub open spec fn decimal_prefix(s: Seq<char>, n: int) -> int
    decreases n,
{
    if n <= 0 {
        0
    } else {
        decimal_prefix(s, n - 1) * 10 + digit_value(s[n - 1])
    }
}

/// The first `n` characters of `s` are digits.
pub open spec fn all_digits(s: Seq<char>, n: int) -> bool {
    forall|i: int| 0 <= i < n ==> is_digit(#[trigger] s[i])
}

/// The index of the first character at or after `i` that is not a digit
/// (the length of `s` if there is none).
pub open spec fn digit_run(s: Seq<char>, i: int) -> int
    decreases s.len() - i,
{
    if 0 <= i < s.len() && is_digit(s[i]) {
        digit_run(s, i + 1)
    } else {
        i
    }
}

/// What `str::parse::<i64>` gives: an optional `+` or `-`, then at least one
/// digit and nothing else, the value in range.
pub open spec fn spec_parse_i64(s: Seq<char>) -> Option<i64> {
    let negative = s.len() > 0 && s[0] == '-';
    let digits = if s.len() > 0 && (s[0] == '-' || s[0] == '+') {
        s.drop_first()
    } else {
        s
    };
    let v = decimal_prefix(digits, digits.len() as int);
    let signed = if negative {
        -v
    } else {
        v
    };
    if digits.len() == 0 || !all_digits(digits, digits.len() as int) {
        None
    } else if i64::MIN <= signed <= i64::MAX {
        Some(signed as i64)
    } else {
        None
    }
}

/// What `str::parse::<usize>` gives. Digits are read from the left; the
/// first of a non-digit and a value past `usize::MAX` decides the error.
pub open spec fn spec_parse_usize(s: Seq<char>) -> Result<usize, IntErrorKind> {
    if s.len() == 0 {
        Err(IntErrorKind::Empty)
    } else if s.len() == 1 && (s[0] == '+' || s[0] == '-') {
        Err(IntErrorKind::InvalidDigit)
    } else {
        let digits = if s[0] == '+' {
            s.drop_first()
        } else {
            s
        };
        let k = digit_run(digits, 0);
        let v = decimal_prefix(digits, k);
        if v > usize::MAX {
            Err(IntErrorKind::PosOverflow)
        } else if k < digits.len() {
            Err(IntErrorKind::InvalidDigit)
        } else {
            Ok(v as usize)
        }
    }
}

/// A longer run of digits never writes a smaller number.
pub proof fn lemma_decimal_monotone(s: Seq<char>, n: int, m: int)
    requires
        0 <= n <= m,
        all_digits(s, m),
    ensures
        0 <= decimal_prefix(s, n) <= decimal_prefix(s, m),
    decreases m,
{
    if n < m {
        lemma_decimal_monotone(s, n, m - 1);
        assert(is_digit(s[m - 1]));
    } else if n > 0 {
        lemma_decimal_monotone(s, n - 1, n - 1);
        assert(is_digit(s[n - 1]));
    }
}

/// `digit_run(s, i)` ends a run of digits that starts at `i`.
pub proof fn lemma_digit_run(s: Seq<char>, i: int)
    requires
        0 <= i <= s.len(),
    ensures
        i <= digit_run(s, i) <= s.len(),
        forall|j: int| i <= j < digit_run(s, i) ==> is_digit(#[trigger] s[j]),
        digit_run(s, i) < s.len() ==> !is_digit(s[digit_run(s, i)]),
    decreases s.len() - i,
{
    if i < s.len() && is_digit(s[i]) {
        lemma_digit_run(s, i + 1);
    }
}

fn digit_of(c: char) -> (r: Option<u32>)
    ensures
        match r {
            Some(d) => is_digit(c) && d == digit_value(c),
            None => !is_digit(c),
        },
{
    if '0' <= c && c <= '9' {
        Some((c as u32) - ('0' as u32))
    } else {
        None
    }
}

/// `s.parse::<i64>().ok()`.
pub fn parse_i64(s: &str) -> (r: Option<i64>)
    ensures
        r == spec_parse_i64(s@),
{
    let cs = chars_of(s);
    let n = cs.len();
    let negative = n > 0 && cs[0] == '-';
    let start: usize = if n > 0 && (cs[0] == '-' || cs[0] == '+') {
        1
    } else {
        0
    };
    let ghost digits = if s@.len() > 0 && (s@[0] == '-' || s@[0] == '+') {
        s@.drop_first()
    } else {
        s@
    };
    assert(digits =~= cs@.subrange(start as int, n as int));
    if start == n {
        return None;
    }
    let mut acc: u128 = 0;
    let mut j: usize = start;
    while j < n
        invariant
            start <= j <= n,
            n == cs@.len(),
            cs@ == s@,
            digits == cs@.subrange(start as int, n as int),
            digits == (if s@.len() > 0 && (s@[0] == '-' || s@[0] == '+') {
                s@.drop_first()
            } else {
                s@
            }),
            all_digits(digits, j - start),
            acc == decimal_prefix(digits, j - start),
            acc <= 9223372036854775808,
        decreases n - j,
    {
        assert(digits[j - start] == cs@[j as int]);
        match digit_of(cs[j]) {
            None => {
                assert(!all_digits(digits, digits.len() as int));
                return None;
            },
            Some(d) => {
                let next = acc * 10 + d as u128;
                assert(all_digits(digits, j - start + 1));
                assert(next == decimal_prefix(digits, j - start + 1));
                if next > 9223372036854775808 {
                    proof {
                        if all_digits(digits, digits.len() as int) {
                            lemma_decimal_monotone(digits, j - start + 1, digits.len() as int);
                        }
                    }
                    return None;
                }
                acc = next;
                j = j + 1;
            },
        }
    }
    if negative {
        Some((0i128 - acc as i128) as i64)
    } else if acc <= 9223372036854775807 {
        Some(acc as i64)
    } else {
        None
    }
}

/// `s.parse::<usize>()`, with the kind of its error.
pub fn parse_usize(s: &str) -> (r: Result<usize, IntErrorKind>)
    ensures
        r == spec_parse_usize(s@),
{
    let cs = chars_of(s);
    let n = cs.len();
    if n == 0 {
        return Err(IntErrorKind::Empty);
    }
    if n == 1 && (cs[0] == '+' || cs[0] == '-') {
        return Err(IntErrorKind::InvalidDigit);
    }
    let start: usize = if cs[0] == '+' {
        1
    } else {
        0
    };
    let ghost digits = if s@[0] == '+' {
        s@.drop_first()
    } else {
        s@
    };
    assert(digits =~= cs@.subrange(start as int, n as int));
    proof {
        lemma_digit_run(digits, 0);
    }
    let mut acc: u128 = 0;
    let mut j: usize = start;
    while j < n
        invariant
            start <= j <= n,
            n == cs@.len(),
            cs@ == s@,
            digits == cs@.subrange(start as int, n as int),
            s@.len() > 1 || !(s@[0] == '+' || s@[0] == '-'),
            s@.len() > 0,
            digits == (if s@[0] == '+' {
                s@.drop_first()
            } else {
                s@
            }),
            all_digits(digits, j - start),
            acc == decimal_prefix(digits, j - start),
            acc <= usize::MAX,
            digit_run(digits, 0) == digit_run(digits, j - start),
        decreases n - j,
    {
        assert(digits[j - start] == cs@[j as int]);
        match digit_of(cs[j]) {
            None => {
                return Err(IntErrorKind::InvalidDigit);
            },
            Some(d) => {
                let next = acc * 10 + d as u128;
                assert(next == decimal_prefix(digits, j - start + 1));
                assert(all_digits(digits, j - start + 1));
                assert(digit_run(digits, j - start) == digit_run(digits, j - start + 1));
                if next > usize::MAX as u128 {
                    proof {
                        lemma_digit_run(digits, j - start + 1);
                        lemma_decimal_monotone(digits, j - start + 1, digit_run(digits, 0));
                    }
                    return Err(IntErrorKind::PosOverflow);
                }
                acc = next;
                j = j + 1;
            },
        }
    }
    Ok(acc as usize)
}

} // verus!
