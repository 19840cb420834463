//! Decimal numbers in text.

use vstd::prelude::*;
use vstd::string::*;

use crate::text::compose::{cat2, chars};

verus! {

/// Whether a character is a decimal digit.
pub open spec fn is_digit(c: char) -> bool {
    '0' <= c && c <= '9'
}

/// The digit for a number below ten.
pub open spec fn digit(n: int) -> char {
    (48 + n) as char
}

/// The value of a digit.
pub open spec fn digit_value(c: char) -> int {
    c as int - 48
}

/// A natural number in decimal, without leading zeros.
pub open spec fn decimal(n: nat) -> Seq<char>
    decreases n,
{
    if n < 10 {
        seq![digit(n as int)]
    } else {
        decimal(n / 10).push(digit((n % 10) as int))
    }
}

/// An integer in decimal, with a minus sign where it is negative.
pub open spec fn decimal_int(n: int) -> Seq<char> {
    if n < 0 {
        "-"@ + decimal((-n) as nat)
    } else {
        decimal(n as nat)
    }
}

/// Whether every character of `s` is a digit.
pub open spec fn all_digits(s: Seq<char>) -> bool {
    forall|i: int| 0 <= i < s.len() ==> is_digit(#[trigger] s[i])
}

/// The number that a row of digits denotes.
pub open spec fn digits_value(s: Seq<char>) -> nat
    decreases s.len(),
{
    if s.len() == 0 {
        0
    } else {
        (10 * digits_value(s.drop_last()) + digit_value(s.last())) as nat
    }
}

/// The natural number written in `s`: digits, a plus sign in front of them allowed.
pub open spec fn parsed_nat(s: Seq<char>) -> Option<nat> {
    let t = if s.len() > 0 && s[0] == '+' {
        s.drop_first()
    } else {
        s
    };
    if t.len() > 0 && all_digits(t) {
        Some(digits_value(t))
    } else {
        None
    }
}

/// Writing a number in decimal and reading it back gives the number.
pub proof fn decimal_round_trip(n: nat)
    ensures
        all_digits(decimal(n)),
        decimal(n).len() > 0,
        digits_value(decimal(n)) == n,
        parsed_nat(decimal(n)) == Some(n),
    decreases n,
{
    if n >= 10 {
        decimal_round_trip(n / 10);
        assert(decimal(n).drop_last() =~= decimal(n / 10));
        assert(decimal(n)[0] == decimal(n / 10)[0]);
    } else {
        assert(decimal(n).drop_last() =~= Seq::<char>::empty());
        assert(digits_value(Seq::<char>::empty()) == 0);
    }
    assert(is_digit(decimal(n)[0]));
}

/// A row of digits with fewer digits in front denotes no less.
proof fn digits_value_monotonic(s: Seq<char>, k: int)
    requires
        all_digits(s),
        0 <= k <= s.len(),
    ensures
        digits_value(s.take(k)) <= digits_value(s),
    decreases s.len(),
{
    if k == s.len() {
        assert(s.take(k) =~= s);
    } else {
        assert(all_digits(s.drop_last()));
        digits_value_monotonic(s.drop_last(), k);
        assert(s.drop_last().take(k) =~= s.take(k));
        assert(is_digit(s[s.len() - 1]));
    }
}

/// A number in decimal.
pub fn decimal_text(n: u128) -> (s: String)
    ensures
        s@ == decimal(n as nat),
    decreases n,
{
    let mut s: String = if n < 10 {
        String::new()
    } else {
        decimal_text(n / 10)
    };
    let d: u8 = (n % 10) as u8;
    s.push((48u8 + d) as char);
    assert(n < 10 ==> s@ =~= seq![digit(n as int)]);
    s
}

/// A count in decimal.
pub fn count_text(n: usize) -> (s: String)
    ensures
        s@ == decimal(n as nat),
{
    decimal_text(n as u128)
}

/// A signed number in decimal.
pub fn signed_text(n: i64) -> (s: String)
    ensures
        s@ == decimal_int(n as int),
{
    if n < 0 {
        let m: i128 = n as i128;
        cat2("-", decimal_text((-m) as u128).as_str())
    } else {
        decimal_text(n as u128)
    }
}

/// Reads a natural number up to `max`.
pub fn parse_nat(s: &str, max: u64) -> (r: Option<u64>)
    ensures
        match parsed_nat(s@) {
            Some(n) => if n <= max {
                r == Some(n as u64)
            } else {
                r is None
            },
            None => r is None,
        },
{
    let v: Vec<char> = chars(s);
    let from: usize = if v.len() > 0 && v[0] == '+' {
        1
    } else {
        0
    };
    let ghost t = v@.skip(from as int);
    proof {
        if from == 0 {
            assert(t =~= v@);
        } else {
            assert(t =~= v@.drop_first());
        }
    }
    if from == v.len() {
        return None;
    }
    let mut n: u64 = 0;
    let mut big: bool = false;
    let mut i: usize = from;
    while i < v.len()
        invariant
            from <= i <= v@.len(),
            t == v@.skip(from as int),
            t.len() > 0,
            parsed_nat(s@) == (if all_digits(t) {
                Some(digits_value(t))
            } else {
                None
            }),
            all_digits(t.take(i - from)),
            !big ==> n == digits_value(t.take(i - from)) && n <= max,
            big ==> digits_value(t.take(i - from)) > max,
        decreases v@.len() - i,
    {
        let c: char = v[i];
        assert(t[i - from] == c);
        if !('0' <= c && c <= '9') {
            assert(!is_digit(t[i - from]));
            return None;
        }
        let ghost prefix = t.take(i - from);
        let ghost next = t.take(i - from + 1);
        proof {
            assert(next.drop_last() =~= prefix);
            assert(next.last() == c);
            assert forall|k: int| 0 <= k < next.len() implies is_digit(#[trigger] next[k]) by {
                if k < prefix.len() {
                    assert(next[k] == prefix[k]);
                }
            }
        }
        let d: u64 = ((c as u8) - 48) as u64;
        if !big {
            if d > max || n > (max - d) / 10 {
                big = true;
            } else {
                n = n * 10 + d;
            }
        }
        i += 1;
    }
    assert(t.take(v@.len() - from) =~= t);
    if big {
        None
    } else {
        Some(n)
    }
}

/// Reads a `usize`.
pub fn parse_usize(s: &str) -> (r: Option<usize>)
    ensures
        match parsed_nat(s@) {
            Some(n) => if n <= usize::MAX {
                r == Some(n as usize)
            } else {
                r is None
            },
            None => r is None,
        },
{
    match parse_nat(s, usize::MAX as u64) {
        Some(n) => Some(n as usize),
        None => None,
    }
}

/// Reads a `u32`.
pub fn parse_u32(s: &str) -> (r: Option<u32>)
    ensures
        match parsed_nat(s@) {
            Some(n) => if n <= u32::MAX {
                r == Some(n as u32)
            } else {
                r is None
            },
            None => r is None,
        },
{
    match parse_nat(s, u32::MAX as u64) {
        Some(n) => Some(n as u32),
        None => None,
    }
}

} // verus!
