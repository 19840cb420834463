//! Spans of time written as numbers with units, such as `1h30m` or `2.5d`.

use vstd::prelude::*;
use vstd::string::*;

use crate::binary::{binary_product, binary_sum, nearest, parts_in, Binary};
use crate::natural::{two_to, Natural};
use crate::text::compose::chars;
use crate::text::number::{all_digits, digits_value, is_digit};
use crate::text::scan::{first_index, first_index_bounds, first_index_is};
use crate::time::{power_of_ten, Duration, MAX_NANOS};

verus! {

/// The units that may follow a number.
#[derive(Clone, Copy, Debug, PartialEq, Eq, Structural)]
pub enum Units {
    /// Seconds, minutes and hours.
    Clock,
    /// Seconds, minutes, hours, days and weeks.
    Calendar,
}

/// The seconds in a unit.
pub open spec fn unit_seconds(units: Units, c: char) -> Option<nat> {
    if c == 's' {
        Some(1)
    } else if c == 'm' {
        Some(60)
    } else if c == 'h' {
        Some(3600)
    } else if units == Units::Calendar && c == 'd' {
        Some(86400)
    } else if units == Units::Calendar && c == 'w' {
        Some(604800)
    } else {
        None
    }
}

/// What is wrong with a span.
#[derive(Clone, Copy, Debug, PartialEq, Eq, Structural)]
pub enum SpanProblem {
    /// There is no number where one is expected.
    NoNumber,
    /// A number has more than one point or no digit.
    BadNumber,
    /// The character behind a number is no unit.
    BadUnit(char),
}

/// Whether a character can be part of a number.
pub open spec fn is_number_char(c: char) -> bool {
    is_digit(c) || c == '.'
}

/// How many characters at the start of `s` can be part of a number.
pub open spec fn number_len(s: Seq<char>) -> int
    decreases s.len(),
{
    if s.len() == 0 || !is_number_char(s[0]) {
        0
    } else {
        1 + number_len(s.drop_first())
    }
}

/// The digits in front of the point.
pub open spec fn whole_digits(number: Seq<char>) -> Seq<char> {
    number.take(first_index(number, '.'))
}

/// What stands behind the point.
pub open spec fn fraction_digits(number: Seq<char>) -> Seq<char> {
    let i = first_index(number, '.');
    if i < number.len() {
        number.skip(i + 1)
    } else {
        Seq::empty()
    }
}

/// Whether a row of digits and points has at least one digit and at most one point.
pub open spec fn is_number(number: Seq<char>) -> bool {
    &&& all_digits(whole_digits(number))
    &&& all_digits(fraction_digits(number))
    &&& whole_digits(number).len() + fraction_digits(number).len() > 0
}

/// Whether a number is so small that it counts as zero: it is not more than half of the smallest
/// number that computers write in 64 binary digits.
pub open spec fn vanishes(num: nat, den: nat) -> bool {
    two_to(1075) * num <= den
}

/// What a number denotes.
pub open spec fn number_value(number: Seq<char>) -> (nat, nat) {
    let num = digits_value(whole_digits(number) + fraction_digits(number));
    let den = power_of_ten(fraction_digits(number).len());
    if vanishes(num, den) {
        (0, 1)
    } else {
        nearest(num, den)
    }
}

/// The seconds that the first number of `s` with its unit denotes, and how many characters they
/// take. A number that ends `s` is in seconds.
pub open spec fn first_span(units: Units, s: Seq<char>) -> core::result::Result<
    ((nat, nat), int),
    SpanProblem,
> {
    let n = number_len(s);
    let number = s.take(n);
    if n == 0 {
        Err(SpanProblem::NoNumber)
    } else if !is_number(number) {
        Err(SpanProblem::BadNumber)
    } else if n >= s.len() {
        Ok((binary_product(number_value(number), 1), s.len() as int))
    } else {
        match unit_seconds(units, s[n]) {
            None => Err(SpanProblem::BadUnit(s[n])),
            Some(seconds) => Ok((binary_product(number_value(number), seconds), n + 1)),
        }
    }
}

/// The seconds that `s` denotes besides those that came before: the numbers in it, each followed
/// by its unit, are added one after the other.
pub open spec fn seconds_with(units: Units, s: Seq<char>, before: (nat, nat)) -> core::result::Result<
    (nat, nat),
    SpanProblem,
>
    decreases s.len(),
    via seconds_with_decreases
{
    if s.len() == 0 {
        Ok(before)
    } else {
        match first_span(units, s) {
            Err(p) => Err(p),
            Ok((first, n)) => seconds_with(units, s.skip(n), binary_sum(before, first)),
        }
    }
}

/// The seconds that `s` denotes.
pub open spec fn span(units: Units, s: Seq<char>) -> core::result::Result<(nat, nat), SpanProblem> {
    seconds_with(units, s, (0, 1))
}

/// A span in nanoseconds.
pub open spec fn span_nanos(x: (nat, nat)) -> nat {
    parts_in(x, 1_000_000_000)
}

#[via_fn]
proof fn seconds_with_decreases(units: Units, s: Seq<char>, before: (nat, nat)) {
    number_len_bounds(s);
}

/// The number ends where the first other character stands.
proof fn number_len_bounds(s: Seq<char>)
    ensures
        0 <= number_len(s) <= s.len(),
    decreases s.len(),
{
    if s.len() > 0 && is_number_char(s[0]) {
        number_len_bounds(s.drop_first());
    }
}

proof fn number_len_is(s: Seq<char>, n: int)
    requires
        0 <= n <= s.len(),
        n < s.len() ==> !is_number_char(s[n]),
        forall|k: int| 0 <= k < n ==> is_number_char(#[trigger] s[k]),
    ensures
        number_len(s) == n,
    decreases s.len(),
{
    if n > 0 {
        assert(is_number_char(s[0]));
        let t = s.drop_first();
        assert forall|k: int| 0 <= k < n - 1 implies is_number_char(#[trigger] t[k]) by {
            assert(t[k] == s[k + 1]);
        }
        number_len_is(t, n - 1);
    }
}

/// What a scan of a span gives.
#[derive(Clone, Copy, Debug, PartialEq, Eq, Structural)]
pub struct ScannedSpan {
    /// The span, unless it is longer than the longest [`Duration`].
    pub length: Option<Duration>,
    /// Whether it is more than zero.
    pub positive: bool,
}

/// Whether `number` is well formed, and the position of its point or end.
fn check_number(v: &Vec<char>, from: usize, to: usize) -> (r: Option<usize>)
    requires
        from <= to <= v@.len(),
        forall|k: int| from <= k < to ==> is_number_char(#[trigger] v@[k]),
    ensures
        ({
            let number = v@.subrange(from as int, to as int);
            &&& r is Some <==> is_number(number)
            &&& r matches Some(p) ==> p == from + first_index(number, '.') && from <= p <= to
        }),
{
    let ghost number = v@.subrange(from as int, to as int);
    let mut point: usize = from;
    while point < to && v[point] != '.'
        invariant
            from <= point <= to <= v@.len(),
            forall|k: int| from <= k < to ==> is_number_char(#[trigger] v@[k]),
            forall|k: int| from <= k < point ==> is_digit(#[trigger] v@[k]),
        decreases to - point,
    {
        point += 1;
    }
    proof {
        assert forall|k: int| 0 <= k < point - from implies number[k] != '.' by {
            assert(number[k] == v@[from + k]);
        }
        first_index_is(number, '.', point - from);
        let whole = whole_digits(number);
        assert forall|k: int| 0 <= k < whole.len() implies is_digit(#[trigger] whole[k]) by {
            assert(whole[k] == v@[from + k]);
        }
    }
    if point == to {
        assert(fraction_digits(number) =~= Seq::<char>::empty());
        return if point > from {
            Some(point)
        } else {
            None
        };
    }
    let ghost fraction = fraction_digits(number);
    let mut i: usize = point + 1;
    while i < to
        invariant
            from <= point < i <= to <= v@.len(),
            number == v@.subrange(from as int, to as int),
            fraction == v@.subrange(point + 1, to as int),
            is_number(number) ==> all_digits(fraction),
            forall|k: int| from <= k < to ==> is_number_char(#[trigger] v@[k]),
            forall|k: int| point < k < i ==> is_digit(#[trigger] v@[k]),
        decreases to - i,
    {
        if v[i] == '.' {
            assert(!is_digit(fraction[i - point - 1]));
            return None;
        }
        i += 1;
    }
    proof {
        assert forall|k: int| 0 <= k < fraction.len() implies is_digit(#[trigger] fraction[k]) by {
            assert(fraction[k] == v@[point + 1 + k]);
        }
    }
    if to - from > 1 {
        Some(point)
    } else {
        None
    }
}

/// Digits behind others.
fn push_digits(n: Natural, v: &Vec<char>, from: usize, to: usize, Ghost(before): Ghost<Seq<char>>) -> (r:
    Natural)
    requires
        from <= to <= v@.len(),
        all_digits(v@.subrange(from as int, to as int)),
        n@ == digits_value(before),
    ensures
        r@ == digits_value(before + v@.subrange(from as int, to as int)),
{
    let ghost digits = v@.subrange(from as int, to as int);
    let ten: Natural = Natural::from_u128(10);
    let mut r: Natural = n;
    let mut i: usize = from;
    assert(before + digits.take(0) =~= before);
    while i < to
        invariant
            from <= i <= to <= v@.len(),
            ten@ == 10,
            digits == v@.subrange(from as int, to as int),
            all_digits(digits),
            r@ == digits_value(before + digits.take(i - from)),
        decreases to - i,
    {
        let c: char = v[i];
        assert(digits[i - from] == c);
        assert(is_digit(digits[i - from]));
        assert((before + digits.take(i - from + 1)).drop_last() =~= before + digits.take(i - from));
        r = r.times(&ten).plus(&Natural::from_u128(((c as u8) - 48) as u128));
        i += 1;
    }
    assert(digits.take(to - from) =~= digits);
    r
}

/// Ten to the power of `n`.
fn raise_ten(n: usize) -> (r: Natural)
    ensures
        r@ == power_of_ten(n as nat),
        r@ > 0,
{
    let ten: Natural = Natural::from_u128(10);
    let mut r: Natural = Natural::from_u128(1);
    for i in 0..n
        invariant
            ten@ == 10,
            r@ == power_of_ten(i as nat),
            r@ > 0,
    {
        r = r.times(&ten);
    }
    r
}

/// What a number denotes.
fn read_number(v: &Vec<char>, from: usize, point: usize, to: usize) -> (r: Binary)
    requires
        from <= point <= to <= v@.len(),
        is_number(v@.subrange(from as int, to as int)),
        point == from + first_index(v@.subrange(from as int, to as int), '.'),
    ensures
        r@ == number_value(v@.subrange(from as int, to as int)),
{
    let ghost number = v@.subrange(from as int, to as int);
    let after: usize = if point < to {
        point + 1
    } else {
        to
    };
    proof {
        assert(whole_digits(number) =~= v@.subrange(from as int, point as int));
        assert(fraction_digits(number) =~= v@.subrange(after as int, to as int));
        assert(Seq::<char>::empty() + whole_digits(number) =~= whole_digits(number));
    }
    let zero: Natural = Natural::from_u128(0);
    let whole: Natural = push_digits(zero, v, from, point, Ghost(Seq::empty()));
    let num: Natural = push_digits(whole, v, after, to, Ghost(whole_digits(number)));
    let den: Natural = raise_ten(to - after);
    if den.less(&num.shifted(1075)) {
        Binary::of_ratio(&num, &den)
    } else {
        Binary::zero()
    }
}

/// The seconds in a unit.
fn unit_value(units: Units, c: char) -> (r: Option<u64>)
    ensures
        match unit_seconds(units, c) {
            Some(n) => r == Some(n as u64) && n <= 604800,
            None => r is None,
        },
{
    match c {
        's' => Some(1),
        'm' => Some(60),
        'h' => Some(3600),
        'd' => if units == Units::Calendar {
            Some(86400)
        } else {
            None
        },
        'w' => if units == Units::Calendar {
            Some(604800)
        } else {
            None
        },
        _ => None,
    }
}

/// A number with its unit.
struct ScannedNumber {
    seconds: Binary,
    next: usize,
}

/// Reads the number and the unit at position `i`.
fn scan_number(units: Units, v: &Vec<char>, i: usize) -> (r: core::result::Result<
    ScannedNumber,
    SpanProblem,
>)
    requires
        i < v@.len(),
    ensures
        match first_span(units, v@.skip(i as int)) {
            Err(p) => r matches Err(q) && q == p,
            Ok((first, n)) => r matches Ok(scanned) && scanned.seconds@ == first && scanned.next
                == i + n && i < scanned.next <= v@.len(),
        },
{
    let ghost rest = v@.skip(i as int);
    let mut to: usize = i;
    while to < v.len() && (('0' <= v[to] && v[to] <= '9') || v[to] == '.')
        invariant
            i <= to <= v@.len(),
            forall|k: int| i <= k < to ==> is_number_char(#[trigger] v@[k]),
        decreases v@.len() - to,
    {
        to += 1;
    }
    let ghost number = rest.take(to - i);
    proof {
        assert forall|k: int| 0 <= k < to - i implies is_number_char(#[trigger] rest[k]) by {
            assert(rest[k] == v@[i + k]);
        }
        if to < v@.len() {
            assert(rest[to - i] == v@[to as int]);
        }
        number_len_is(rest, to - i);
        assert(number =~= v@.subrange(i as int, to as int));
    }
    if to == i {
        return Err(SpanProblem::NoNumber);
    }
    let point: usize = match check_number(v, i, to) {
        Some(p) => p,
        None => {
            return Err(SpanProblem::BadNumber);
        },
    };
    let seconds: u64 = if to == v.len() {
        1
    } else {
        match unit_value(units, v[to]) {
            Some(n) => n,
            None => {
                return Err(SpanProblem::BadUnit(v[to]));
            },
        }
    };
    proof {
        first_index_bounds(number, '.');
    }
    let value: Binary = read_number(v, i, point, to);
    let next: usize = if to == v.len() {
        to
    } else {
        to + 1
    };
    Ok(ScannedNumber { seconds: value.times(seconds as u128), next })
}

/// Reads a row of numbers with units.
pub fn scan_span(units: Units, s: &str) -> (r: core::result::Result<ScannedSpan, SpanProblem>)
    ensures
        match span(units, s@) {
            Err(p) => r == Err::<ScannedSpan, SpanProblem>(p),
            Ok(x) => r matches Ok(scanned) && scanned.positive == (x.0 > 0) && if span_nanos(x)
                <= MAX_NANOS {
                scanned.length matches Some(d) && d@ == span_nanos(x)
            } else {
                scanned.length is None
            },
        },
{
    let v: Vec<char> = chars(s);
    let mut i: usize = 0;
    let mut total: Binary = Binary::zero();
    assert(v@.skip(0) =~= v@);
    while i < v.len()
        invariant
            i <= v@.len(),
            v@ == s@,
            span(units, v@) == seconds_with(units, v@.skip(i as int), total@),
        decreases v@.len() - i,
    {
        let ghost rest = v@.skip(i as int);
        match scan_number(units, &v, i) {
            Err(p) => {
                return Err(p);
            },
            Ok(n) => {
                assert(rest.skip(n.next - i) =~= v@.skip(n.next as int));
                total = total.plus(&n.seconds);
                i = n.next;
            },
        }
    }
    assert(v@.skip(i as int).len() == 0);
    Ok(ScannedSpan { length: total.to_span(), positive: !total.is_zero() })
}

} // verus!
