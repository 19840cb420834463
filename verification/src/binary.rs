//! Binary fractions of 53 digits, as computers compute with them.
//!
//! A fraction is a numerator and a denominator. Every result is rounded to 53 binary digits, a tie
//! to the even one.

use vstd::prelude::*;
use vstd::string::*;

use crate::natural::Natural;
use crate::time::{point_text, power_of_ten, rounded, zero_pad, Duration, MAX_NANOS};
use crate::text::compose::cat3;

verus! {

/// How many numbers 53 binary digits write.
pub const PRECISION: u128 = 0x20_0000_0000_0000;

/// Into how many steps, a power of two, one is divided so that `num / den` has 53 binary digits
/// before the point.
pub open spec fn steps(num: nat, den: nat) -> nat
    decreases PRECISION * den - num,
{
    if num == 0 || 2 * num >= PRECISION * den {
        1
    } else {
        2 * steps(2 * num, den)
    }
}

/// By what power of two `num / den` is divided so that it has no more than 53 binary digits before
/// the point.
pub open spec fn coarseness(num: nat, den: nat) -> nat
    decreases num - den,
{
    if den == 0 || num < PRECISION * den {
        1
    } else {
        2 * coarseness(num, 2 * den)
    }
}

/// `num / den` rounded to 53 binary digits.
#[verifier::opaque]
pub open spec fn nearest(num: nat, den: nat) -> (nat, nat) {
    if num < PRECISION * den {
        let g = steps(num, den);
        (rounded(num * g, den), g)
    } else {
        let c = coarseness(num, den);
        (rounded(num, den * c) * c, 1)
    }
}

/// The sum of two fractions.
pub open spec fn binary_sum(x: (nat, nat), y: (nat, nat)) -> (nat, nat) {
    nearest(x.0 * y.1 + y.0 * x.1, x.1 * y.1)
}

/// Whether a fraction is less than another.
pub open spec fn binary_less(x: (nat, nat), y: (nat, nat)) -> bool {
    x.0 * y.1 < y.0 * x.1
}

/// By how much two fractions differ.
pub open spec fn binary_difference(x: (nat, nat), y: (nat, nat)) -> (nat, nat) {
    let (a, b) = (x.0 * y.1, y.0 * x.1);
    nearest(
        if a < b {
            (b - a) as nat
        } else {
            (a - b) as nat
        },
        x.1 * y.1,
    )
}

/// A fraction a number of times.
pub open spec fn binary_product(x: (nat, nat), n: nat) -> (nat, nat) {
    nearest(x.0 * n, x.1)
}

/// A fraction in relation to another.
pub open spec fn binary_quotient(x: (nat, nat), y: (nat, nat)) -> (nat, nat) {
    nearest(x.0 * y.1, x.1 * y.0)
}

/// How many parts a fraction is, of which there are `unit` in one, rounded.
pub open spec fn parts_in(x: (nat, nat), unit: nat) -> nat {
    rounded(x.0 * unit, x.1)
}

/// The nearest whole number, the larger one of two.
pub open spec fn whole_nearest(x: (nat, nat)) -> nat {
    (2 * x.0 + x.1) / (2 * x.1)
}

/// The fraction for nanoseconds in seconds: that of the whole seconds and that of the rest are
/// added.
pub open spec fn binary_seconds(nanos: nat) -> (nat, nat) {
    binary_sum(
        nearest(nanos / 1_000_000_000, 1),
        nearest(nanos % 1_000_000_000, 1_000_000_000),
    )
}

/// A fraction with `places` digits behind the point, rounded.
pub open spec fn fraction_text(x: (nat, nat), places: nat) -> Seq<char> {
    point_text(parts_in(x, power_of_ten(places)), places)
}

/// The sum of spans in seconds, one after the other.
pub open spec fn total_seconds(spans: Seq<nat>) -> (nat, nat)
    decreases spans.len(),
{
    if spans.len() == 0 {
        (0, 1)
    } else {
        binary_sum(total_seconds(spans.drop_last()), binary_seconds(spans.last()))
    }
}

/// The mean of spans in seconds.
pub open spec fn mean_seconds(spans: Seq<nat>) -> (nat, nat) {
    binary_quotient(total_seconds(spans), nearest(spans.len(), 1))
}

/// The lengths of spans in nanoseconds.
pub open spec fn lengths(v: Seq<Duration>) -> Seq<nat> {
    Seq::new(v.len(), |i: int| v[i]@)
}

/// A binary fraction.
#[derive(Debug)]
pub struct Binary {
    num: Natural,
    den: Natural,
}

impl View for Binary {
    type V = (nat, nat);

    /// The numerator and the denominator.
    closed spec fn view(&self) -> (nat, nat) {
        (self.num@, self.den@)
    }
}

/// `num / den` rounded to a whole number.
fn round_ratio(num: &Natural, den: &Natural) -> (r: Natural)
    requires
        den@ > 0,
    ensures
        r@ == rounded(num@, den@),
{
    let (q, r): (Natural, Natural) = num.divide(den);
    let twice: Natural = r.doubled();
    if twice.less(den) || (!den.less(&twice) && !q.is_odd()) {
        q
    } else {
        q.plus(&Natural::from_u128(1))
    }
}

/// The steps into which one is divided.
fn find_steps(num: &Natural, den: &Natural, limit: &Natural) -> (g: Natural)
    requires
        limit@ == PRECISION * den@,
        num@ < limit@,
    ensures
        g@ == steps(num@, den@),
        g@ > 0,
{
    let mut g: Natural = Natural::from_u128(1);
    if num.is_zero() {
        return g;
    }
    let mut x: Natural = num.doubled();
    assert(1 * steps(num@, den@) == steps(num@, den@));
    let ghost mut half = num@;
    while x.less(limit)
        invariant
            limit@ == PRECISION * den@,
            g@ > 0,
            half > 0,
            x@ == 2 * half,
            half < limit@,
            steps(num@, den@) == g@ * steps(half, den@),
        decreases limit@ - half,
    {
        proof {
            let s = steps(2 * half, den@);
            assert(steps(half, den@) == 2 * s);
            let a = g@;
            assert(a * (2 * s) == (2 * a) * s) by (nonlinear_arith);
            half = 2 * half;
        }
        x = x.doubled();
        g = g.doubled();
    }
    assert(g@ * 1 == g@);
    g
}

/// By what a large fraction is divided, and the denominator times that.
fn find_coarseness(num: &Natural, den: &Natural) -> (r: (Natural, Natural))
    requires
        den@ > 0,
    ensures
        r.0@ == coarseness(num@, den@),
        r.0@ > 0,
        r.1@ == den@ * r.0@,
{
    let precision: Natural = Natural::from_u128(PRECISION);
    let mut c: Natural = Natural::from_u128(1);
    let mut d: Natural = den.copy();
    assert(den@ * 1 == den@);
    assert(1 * coarseness(num@, den@) == coarseness(num@, den@));
    while !num.less(&precision.times(&d))
        invariant
            den@ > 0,
            precision@ == PRECISION,
            c@ > 0,
            d@ > 0,
            d@ == den@ * c@,
            coarseness(num@, den@) == c@ * coarseness(num@, d@),
        decreases num@ - d@,
    {
        proof {
            let s = coarseness(num@, 2 * d@);
            let (a, b) = (c@, den@);
            assert(coarseness(num@, d@) == 2 * s);
            assert(a * (2 * s) == (2 * a) * s) by (nonlinear_arith);
            assert(b * (2 * a) == 2 * (b * a)) by (nonlinear_arith);
        }
        c = c.doubled();
        d = d.doubled();
    }
    assert(c@ * 1 == c@);
    (c, d)
}

impl Binary {
    #[verifier::type_invariant]
    closed spec fn is_fraction(&self) -> bool {
        self.den@ > 0
    }

    /// `num / den` rounded to 53 binary digits.
    pub fn of_ratio(num: &Natural, den: &Natural) -> (r: Binary)
        requires
            den@ > 0,
        ensures
            r@ == nearest(num@, den@),
    {
        reveal(nearest);
        let limit: Natural = Natural::from_u128(PRECISION).times(den);
        if num.less(&limit) {
            let g: Natural = find_steps(num, den, &limit);
            Binary { num: round_ratio(&num.times(&g), den), den: g }
        } else {
            let (c, d): (Natural, Natural) = find_coarseness(num, den);
            assert(den@ * c@ > 0) by (nonlinear_arith)
                requires
                    den@ > 0,
                    c@ > 0,
            ;
            Binary { num: round_ratio(num, &d).times(&c), den: Natural::from_u128(1) }
        }
    }

    /// Nothing.
    pub fn zero() -> (r: Binary)
        ensures
            r@ == (0nat, 1nat),
    {
        Binary { num: Natural::from_u128(0), den: Natural::from_u128(1) }
    }

    /// One.
    pub fn one() -> (r: Binary)
        ensures
            r@ == (1nat, 1nat),
    {
        Binary { num: Natural::from_u128(1), den: Natural::from_u128(1) }
    }

    /// The quotient of two numbers.
    pub fn ratio(num: u128, den: u128) -> (r: Binary)
        requires
            den > 0,
        ensures
            r@ == nearest(num as nat, den as nat),
    {
        Binary::of_ratio(&Natural::from_u128(num), &Natural::from_u128(den))
    }

    /// A span in seconds.
    pub fn seconds(d: Duration) -> (r: Binary)
        ensures
            r@ == binary_seconds(d@),
    {
        let nanos: u128 = d.as_nanos();
        let whole: Binary = Binary::ratio(nanos / 1_000_000_000, 1);
        whole.plus(&Binary::ratio(nanos % 1_000_000_000, 1_000_000_000))
    }

    /// The mean of spans in seconds, where there are any.
    pub fn mean(v: &Vec<Duration>) -> (r: Option<Binary>)
        ensures
            match r {
                Some(m) => v@.len() > 0 && m@ == mean_seconds(lengths(v@)),
                None => v@.len() == 0,
            },
    {
        let n: usize = v.len();
        if n == 0 {
            return None;
        }
        let ghost all = lengths(v@);
        let mut total: Binary = Binary::zero();
        for i in 0..n
            invariant
                n == v@.len(),
                all == lengths(v@),
                total@ == total_seconds(all.take(i as int)),
        {
            assert(all.take(i + 1).drop_last() =~= all.take(i as int));
            total = total.plus(&Binary::seconds(v[i]));
        }
        assert(all.take(n as int) =~= all);
        proof {
            nearest_is_positive(n as nat, 1);
        }
        Some(total.over(&Binary::ratio(n as u128, 1)))
    }

    /// The numerator and the denominator, where they are not too large.
    pub fn to_words(&self) -> (r: Option<(u128, u128)>)
        ensures
            match r {
                Some((a, b)) => a == self@.0 && b == self@.1,
                None => self@.0 > u128::MAX || self@.1 > u128::MAX,
            },
    {
        let most: Natural = Natural::from_u128(u128::MAX);
        if most.less(&self.num) || most.less(&self.den) {
            None
        } else {
            Some((self.num.to_u128(), self.den.to_u128()))
        }
    }

    /// The sum.
    pub fn plus(&self, other: &Binary) -> (r: Binary)
        ensures
            r@ == binary_sum(self@, other@),
    {
        proof {
            use_type_invariant(self);
            use_type_invariant(other);
            positive_product(self.den@, other.den@);
        }
        let a: Natural = self.num.times(&other.den);
        let b: Natural = other.num.times(&self.den);
        Binary::of_ratio(&a.plus(&b), &self.den.times(&other.den))
    }

    /// Whether the fraction is less than another.
    pub fn less(&self, other: &Binary) -> (r: bool)
        ensures
            r == binary_less(self@, other@),
    {
        self.num.times(&other.den).less(&other.num.times(&self.den))
    }

    /// By how much the fraction differs from another.
    pub fn distance(&self, other: &Binary) -> (r: Binary)
        ensures
            r@ == binary_difference(self@, other@),
    {
        proof {
            use_type_invariant(self);
            use_type_invariant(other);
            positive_product(self.den@, other.den@);
        }
        let a: Natural = self.num.times(&other.den);
        let b: Natural = other.num.times(&self.den);
        let d: Natural = if a.less(&b) {
            b.minus(&a)
        } else {
            a.minus(&b)
        };
        Binary::of_ratio(&d, &self.den.times(&other.den))
    }

    /// The fraction a number of times.
    pub fn times(&self, n: u128) -> (r: Binary)
        ensures
            r@ == binary_product(self@, n as nat),
    {
        proof {
            use_type_invariant(self);
        }
        Binary::of_ratio(&self.num.times(&Natural::from_u128(n)), &self.den)
    }

    /// The fraction in relation to another.
    pub fn over(&self, other: &Binary) -> (r: Binary)
        requires
            other@.0 > 0,
        ensures
            r@ == binary_quotient(self@, other@),
    {
        proof {
            use_type_invariant(self);
            positive_product(self.den@, other.num@);
        }
        Binary::of_ratio(&self.num.times(&other.den), &self.den.times(&other.num))
    }

    /// Whether the fraction is zero.
    pub fn is_zero(&self) -> (r: bool)
        ensures
            r == (self@.0 == 0),
    {
        self.num.is_zero()
    }

    /// How many parts the fraction is, of which there are `unit` in one, rounded.
    pub fn parts(&self, unit: u128) -> (r: Natural)
        ensures
            r@ == parts_in(self@, unit as nat),
    {
        proof {
            use_type_invariant(self);
        }
        round_ratio(&self.num.times(&Natural::from_u128(unit)), &self.den)
    }

    /// The nearest whole number, the larger one of two.
    pub fn nearest_whole(&self) -> (r: Natural)
        ensures
            r@ == whole_nearest(self@),
    {
        proof {
            use_type_invariant(self);
        }
        self.num.doubled().plus(&self.den).divide(&self.den.doubled()).0
    }

    /// The span of so many seconds, where it is not too long.
    pub fn to_span(&self) -> (r: Option<Duration>)
        ensures
            ({
                let n = parts_in(self@, 1_000_000_000);
                if n <= MAX_NANOS {
                    r matches Some(d) && d@ == n
                } else {
                    r is None
                }
            }),
    {
        let n: Natural = self.parts(1_000_000_000);
        if Natural::from_u128(MAX_NANOS).less(&n) {
            None
        } else {
            Some(Duration::from_nanos(n.to_u128()))
        }
    }

    /// The fraction with digits behind the point.
    fn render(&self, unit: u128, places: usize) -> (s: String)
        requires
            unit > 0,
            unit == power_of_ten(places as nat),
        ensures
            s@ == fraction_text(self@, places as nat),
    {
        let (q, r): (Natural, Natural) = self.parts(unit).divide(&Natural::from_u128(unit));
        cat3(q.text().as_str(), ".", zero_pad(r.to_u128(), places).as_str())
    }

    /// The fraction with one digit behind the point.
    pub fn with_tenths(&self) -> (s: String)
        ensures
            s@ == fraction_text(self@, 1),
    {
        proof {
            reveal_with_fuel(power_of_ten, 2);
        }
        self.render(10, 1)
    }

    /// The fraction with two digits behind the point.
    pub fn with_hundredths(&self) -> (s: String)
        ensures
            s@ == fraction_text(self@, 2),
    {
        proof {
            reveal_with_fuel(power_of_ten, 3);
        }
        self.render(100, 2)
    }

    /// The fraction with three digits behind the point.
    pub fn with_thousandths(&self) -> (s: String)
        ensures
            s@ == fraction_text(self@, 3),
    {
        proof {
            reveal_with_fuel(power_of_ten, 4);
        }
        self.render(1000, 3)
    }
}

proof fn positive_product(a: nat, b: nat)
    requires
        a > 0,
        b > 0,
    ensures
        a * b > 0,
{
    assert(a * b > 0) by (nonlinear_arith)
        requires
            a > 0,
            b > 0,
    ;
}

/// A fraction divided into steps has 53 binary digits.
proof fn steps_are_enough(num: nat, den: nat)
    requires
        0 < num < PRECISION * den,
    ensures
        2 * (num * steps(num, den)) >= PRECISION * den,
        steps(num, den) > 0,
    decreases PRECISION * den - num,
{
    if 2 * num < PRECISION * den {
        steps_are_enough(2 * num, den);
        let s = steps(2 * num, den);
        assert(num * (2 * s) == (2 * num) * s) by (nonlinear_arith);
    } else {
        assert(num * 1 == num);
    }
}

/// A large fraction is not divided by too much.
proof fn coarseness_is_small(num: nat, den: nat)
    requires
        den > 0,
        num >= PRECISION * den,
    ensures
        2 * num >= PRECISION * (den * coarseness(num, den)),
        coarseness(num, den) > 0,
    decreases num - den,
{
    let c = coarseness(num, 2 * den);
    assert(den * (2 * c) == (2 * den) * c) by (nonlinear_arith);
    if num >= PRECISION * (2 * den) {
        coarseness_is_small(num, 2 * den);
    } else {
        assert((2 * den) * 1 == 2 * den);
    }
}

/// A ratio of at least one is not rounded to zero.
proof fn rounded_positive(num: nat, den: nat)
    requires
        0 < den <= num,
    ensures
        rounded(num, den) > 0,
{
    vstd::arithmetic::div_mod::lemma_fundamental_div_mod(num as int, den as int);
    let q = num / den;
    assert(q >= 1) by (nonlinear_arith)
        requires
            num == den * q + num % den,
            num % den < den,
            num >= den,
            den > 0,
    ;
}

/// What is more than zero is not rounded to zero.
pub proof fn nearest_is_positive(num: nat, den: nat)
    requires
        den > 0,
    ensures
        num > 0 ==> nearest(num, den).0 > 0,
        nearest(num, den).1 > 0,
{
    reveal(nearest);
    if num > 0 && num < PRECISION * den {
        steps_are_enough(num, den);
        rounded_positive(num * steps(num, den), den);
    } else if num >= PRECISION * den {
        coarseness_is_small(num, den);
        let c = coarseness(num, den);
        positive_product(den, c);
        rounded_positive(num, den * c);
        positive_product(rounded(num, den * c), c);
    }
}

/// What is more than zero has a quotient of more than zero.
pub proof fn quotient_is_positive(x: (nat, nat), y: (nat, nat))
    requires
        x.0 > 0 && x.1 > 0,
        y.0 > 0 && y.1 > 0,
    ensures
        binary_quotient(x, y).0 > 0,
{
    positive_product(x.0, y.1);
    positive_product(x.1, y.0);
    nearest_is_positive(x.0 * y.1, x.1 * y.0);
}

/// A span is zero seconds only where it is zero.
pub proof fn seconds_are_positive(nanos: nat)
    ensures
        nanos > 0 ==> binary_seconds(nanos).0 > 0,
        binary_seconds(nanos).1 > 0,
{
    let (a, b) = (nanos / 1_000_000_000, nanos % 1_000_000_000);
    nearest_is_positive(a, 1);
    nearest_is_positive(b, 1_000_000_000);
    let (x, y) = (nearest(a, 1), nearest(b, 1_000_000_000));
    positive_product(x.1, y.1);
    if a > 0 {
        positive_product(x.0, y.1);
    }
    if b > 0 {
        positive_product(y.0, x.1);
    }
    nearest_is_positive(x.0 * y.1 + y.0 * x.1, x.1 * y.1);
}

} // verus!
