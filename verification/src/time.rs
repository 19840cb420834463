//! Spans of time and points in time.

use vstd::prelude::*;
use vstd::string::*;

use crate::binary::{binary_product, binary_quotient, binary_seconds, fraction_text, nearest, nearest_is_positive, Binary};
use crate::text::compose::cat2;
use crate::text::number::{decimal, decimal_text};

verus! {

/// Nanoseconds in a second.
pub const NANOS_PER_SEC: u128 = 1_000_000_000;

/// The longest span in nanoseconds: `u64::MAX` seconds and all but a second more.
pub const MAX_NANOS: u128 = 18_446_744_073_709_551_615_999_999_999;

/// A span of time, exact to the nanosecond.
#[derive(Clone, Copy, Debug, PartialEq, Eq, Structural)]
pub struct Duration {
    nanos: u128,
}

impl View for Duration {
    type V = nat;

    /// The span in nanoseconds.
    closed spec fn view(&self) -> nat {
        self.nanos as nat
    }
}

impl Duration {
    #[verifier::type_invariant]
    closed spec fn bounded(&self) -> bool {
        self.nanos <= MAX_NANOS
    }

    /// A span of `secs` seconds.
    pub fn from_secs(secs: u64) -> (r: Duration)
        ensures
            r@ == secs * 1_000_000_000,
    {
        Duration { nanos: secs as u128 * NANOS_PER_SEC }
    }

    /// A span of `millis` milliseconds.
    pub fn from_millis(millis: u64) -> (r: Duration)
        ensures
            r@ == millis * 1_000_000,
    {
        Duration { nanos: millis as u128 * 1_000_000 }
    }

    /// A span of `nanos` nanoseconds.
    pub fn from_nanos(nanos: u128) -> (r: Duration)
        requires
            nanos <= MAX_NANOS,
        ensures
            r@ == nanos,
    {
        Duration { nanos }
    }

    /// The whole seconds in the span.
    pub fn as_secs(&self) -> (r: u64)
        ensures
            r == self@ / 1_000_000_000,
    {
        proof {
            use_type_invariant(self);
        }
        (self.nanos / NANOS_PER_SEC) as u64
    }

    /// The whole milliseconds in the span.
    pub fn as_millis(&self) -> (r: u128)
        ensures
            r == self@ / 1_000_000,
    {
        self.nanos / 1_000_000
    }

    /// The span in nanoseconds.
    pub fn as_nanos(&self) -> (r: u128)
        ensures
            r == self@,
            r <= MAX_NANOS,
    {
        proof {
            use_type_invariant(self);
        }
        self.nanos
    }

    /// The whole seconds in the span and the nanoseconds left.
    pub fn parts(&self) -> (r: (u64, u32))
        ensures
            r.0 == self@ / 1_000_000_000,
            r.1 == self@ % 1_000_000_000,
    {
        (self.as_secs(), (self.nanos % NANOS_PER_SEC) as u32)
    }
}

/// A point in time: seconds since the start of 1970 in UTC and nanoseconds within the second.
#[derive(Clone, Copy, Debug, PartialEq, Eq, Structural)]
pub struct Timestamp {
    /// Seconds since the start of 1970.
    pub seconds: i64,
    /// Nanoseconds within the second.
    pub nanos: u32,
}

/// `num / den` rounded to the nearest whole number, a tie to the even one.
pub open spec fn rounded(num: nat, den: nat) -> nat
    recommends
        den > 0,
{
    let q = num / den;
    let r = num % den;
    if 2 * r < den || (2 * r == den && q % 2 == 0) {
        q
    } else {
        q + 1
    }
}

/// `n` in decimal, with zeros in front of it up to `width` digits.
pub open spec fn zero_padded(n: nat, width: nat) -> Seq<char> {
    let d = decimal(n);
    if d.len() < width {
        Seq::new((width - d.len()) as nat, |i: int| '0') + d
    } else {
        d
    }
}

/// Ten to the power of `n`.
pub open spec fn power_of_ten(n: nat) -> nat
    decreases n,
{
    if n == 0 {
        1
    } else {
        10 * power_of_ten((n - 1) as nat)
    }
}

/// A number of `places`-digit decimal fractions, written with a decimal point.
pub open spec fn point_text(n: nat, places: nat) -> Seq<char> {
    let unit = power_of_ten(places);
    decimal(n / unit) + "."@ + zero_padded(n % unit, places)
}

/// `nanos` in seconds with `places` digits behind the point.
pub open spec fn seconds_text(nanos: nat, places: nat) -> Seq<char> {
    fraction_text(binary_seconds(nanos), places)
}

/// `num / den` rounded.
pub fn round_ratio(num: u128, den: u128) -> (r: u128)
    requires
        den > 0,
        den < u128::MAX / 2,
        num < u128::MAX,
    ensures
        r == rounded(num as nat, den as nat),
{
    let q: u128 = num / den;
    let r: u128 = num % den;
    if 2 * r < den || (2 * r == den && q % 2 == 0) {
        q
    } else {
        assert(q + 1 <= num) by (nonlinear_arith)
            requires
                q == num / den,
                r == num % den,
                2 * r >= den,
                den > 0,
                num < u128::MAX,
        {
            assert(num == den * q + r);
            assert(den * q >= q);
            assert(r >= 1);
        }
        q + 1
    }
}

/// `n` in decimal with zeros in front.
pub fn zero_pad(n: u128, width: usize) -> (s: String)
    ensures
        s@ == zero_padded(n as nat, width as nat),
{
    let digits: String = decimal_text(n);
    let len: usize = digits.as_str().unicode_len();
    let mut s = String::new();
    let mut i: usize = len;
    while i < width
        invariant
            len <= i,
            len < width ==> i <= width,
            len >= width ==> i == len,
            s@ =~= Seq::new((i - len) as nat, |k: int| '0'),
        decreases width - i,
    {
        s.push('0');
        i += 1;
    }
    s.append(digits.as_str());
    assert(s@ =~= zero_padded(n as nat, width as nat));
    s
}

/// A span in seconds with two digits behind the point.
pub fn seconds_with_hundredths(d: Duration) -> (s: String)
    ensures
        s@ == seconds_text(d@, 2),
{
    Binary::seconds(d).with_hundredths()
}

/// A span in seconds with three digits behind the point.
pub fn seconds_with_millis(d: Duration) -> (s: String)
    ensures
        s@ == seconds_text(d@, 3),
{
    Binary::seconds(d).with_thousandths()
}

/// A span in seconds with one digit behind the point.
pub fn seconds_with_tenths(d: Duration) -> (s: String)
    ensures
        s@ == seconds_text(d@, 1),
{
    Binary::seconds(d).with_tenths()
}

/// A text with blanks in front of it up to `width` characters.
pub open spec fn padded_left(s: Seq<char>, width: nat) -> Seq<char> {
    if s.len() < width {
        Seq::new((width - s.len()) as nat, |i: int| ' ') + s
    } else {
        s
    }
}

/// A text with blanks behind it up to `width` characters.
pub open spec fn padded_right(s: Seq<char>, width: nat) -> Seq<char> {
    if s.len() < width {
        s + Seq::new((width - s.len()) as nat, |i: int| ' ')
    } else {
        s
    }
}

/// `num / den` as a binary fraction.
pub open spec fn binary_ratio(num: nat, den: nat) -> (nat, nat) {
    binary_quotient(nearest(num, 1), nearest(den, 1))
}

/// `num / den` in percent with one digit behind the point.
pub open spec fn percent_text(num: nat, den: nat) -> Seq<char> {
    fraction_text(binary_product(binary_ratio(num, den), 100), 1)
}

/// Blanks.
fn blanks(n: usize) -> (s: String)
    ensures
        s@ == Seq::new(n as nat, |i: int| ' '),
{
    let mut s = String::new();
    for i in 0..n
        invariant
            s@ =~= Seq::new(i as nat, |k: int| ' '),
    {
        s.push(' ');
    }
    s
}

/// A text with blanks in front of it.
pub fn pad_left(s: &str, width: usize) -> (r: String)
    ensures
        r@ == padded_left(s@, width as nat),
{
    let n: usize = s.unicode_len();
    if n < width {
        cat2(blanks(width - n).as_str(), s)
    } else {
        s.to_owned()
    }
}

/// A text with blanks behind it.
pub fn pad_right(s: &str, width: usize) -> (r: String)
    ensures
        r@ == padded_right(s@, width as nat),
{
    let n: usize = s.unicode_len();
    if n < width {
        cat2(s, blanks(width - n).as_str())
    } else {
        s.to_owned()
    }
}

/// `num / den` in percent with one digit behind the point.
pub fn percent(num: u128, den: u128) -> (s: String)
    requires
        den > 0,
    ensures
        s@ == percent_text(num as nat, den as nat),
{
    proof {
        nearest_is_positive(den as nat, 1);
    }
    Binary::ratio(num, 1).over(&Binary::ratio(den, 1)).times(100).with_tenths()
}

} // verus!
