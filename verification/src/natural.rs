//! Natural numbers of any size.

use vstd::prelude::*;
use vstd::string::*;

use crate::text::number::decimal;

verus! {

/// Two to the power of `n`.
pub open spec fn two_to(n: nat) -> nat
    decreases n,
{
    if n == 0 {
        1
    } else {
        2 * two_to((n - 1) as nat)
    }
}

/// What a binary digit counts where a one counts `n`.
pub open spec fn bit_worth(bit: bool, n: nat) -> nat {
    if bit {
        n
    } else {
        0
    }
}

/// The number that binary digits write, the lowest one first.
pub open spec fn bits_value(bits: Seq<bool>) -> nat
    decreases bits.len(),
{
    if bits.len() == 0 {
        0
    } else {
        bits_value(bits.drop_last()) + bit_worth(bits.last(), two_to((bits.len() - 1) as nat))
    }
}

/// A natural number.
#[derive(Debug)]
pub struct Natural {
    bits: Vec<bool>,
}

impl View for Natural {
    type V = nat;

    closed spec fn view(&self) -> nat {
        bits_value(self.bits@)
    }
}

/// A number is less than the power of two that its digits leave out.
proof fn bits_bound(bits: Seq<bool>)
    ensures
        bits_value(bits) < two_to(bits.len()),
    decreases bits.len(),
{
    if bits.len() > 0 {
        bits_bound(bits.drop_last());
    }
}

/// One more digit.
proof fn one_more_bit(bits: Seq<bool>, i: int)
    requires
        0 <= i < bits.len(),
    ensures
        bits_value(bits.take(i + 1)) == bits_value(bits.take(i)) + bit_worth(
            bits[i],
            two_to(i as nat),
        ),
        two_to((i + 1) as nat) == 2 * two_to(i as nat),
{
    assert(bits.take(i + 1).drop_last() =~= bits.take(i));
}

/// A digit below the others.
proof fn bit_below(bit: bool, bits: Seq<bool>)
    ensures
        bits_value(seq![bit] + bits) == 2 * bits_value(bits) + bit_worth(bit, 1),
    decreases bits.len(),
{
    let all = seq![bit] + bits;
    if bits.len() == 0 {
        assert(all =~= seq![bit]);
        assert(all.drop_last() =~= Seq::<bool>::empty());
        assert(bits_value(all.drop_last()) == 0);
        assert(two_to(0) == 1);
    } else {
        assert(all.drop_last() =~= seq![bit] + bits.drop_last());
        bit_below(bit, bits.drop_last());
        assert(two_to(bits.len()) == 2 * two_to((bits.len() - 1) as nat));
    }
}

/// Zeros below the other digits.
proof fn zeros_below(n: nat, bits: Seq<bool>)
    ensures
        bits_value(Seq::new(n, |k: int| false) + bits) == two_to(n) * bits_value(bits),
    decreases n,
{
    let all = Seq::new(n, |k: int| false) + bits;
    let v = bits_value(bits);
    if n == 0 {
        assert(all =~= bits);
        assert(1 * v == v);
    } else {
        let less = Seq::new((n - 1) as nat, |k: int| false) + bits;
        assert(all =~= seq![false] + less);
        zeros_below((n - 1) as nat, bits);
        bit_below(false, less);
        let p = two_to((n - 1) as nat);
        assert((2 * p) * v == 2 * (p * v)) by (nonlinear_arith);
    }
}

/// The digits from a position on.
proof fn bits_from(bits: Seq<bool>, j: int)
    requires
        0 <= j < bits.len(),
    ensures
        bits_value(bits.skip(j)) == 2 * bits_value(bits.skip(j + 1)) + bit_worth(bits[j], 1),
{
    assert(bits.skip(j) =~= seq![bits[j]] + bits.skip(j + 1));
    bit_below(bits[j], bits.skip(j + 1));
}

impl Natural {
    /// The number of a machine word.
    pub fn from_u128(n: u128) -> (r: Natural)
        ensures
            r@ == n,
    {
        let mut bits: Vec<bool> = Vec::new();
        let mut rest: u128 = n;
        assert(two_to(0) == 1);
        assert(1 * rest == rest);
        while rest > 0
            invariant
                n == bits_value(bits@) + two_to(bits@.len()) * rest,
            decreases rest,
        {
            let bit: bool = rest % 2 == 1;
            let ghost before = bits@;
            let ghost p = two_to(before.len()) as int;
            bits.push(bit);
            proof {
                assert(bits@.drop_last() =~= before);
                assert(two_to(bits@.len()) == 2 * p);
                let half = rest as int / 2;
                let low = rest as int % 2;
                assert(p * rest == (2 * p) * half + p * low) by (nonlinear_arith)
                    requires
                        rest == 2 * half + low,
                ;
                assert(p * low == bit_worth(bit, p as nat)) by (nonlinear_arith)
                    requires
                        low == 0 || low == 1,
                        bit_worth(bit, p as nat) == (if low == 1 {
                            p
                        } else {
                            0
                        }),
                ;
            }
            rest = rest / 2;
        }
        assert(two_to(bits@.len()) * 0 == 0);
        Natural { bits }
    }

    /// The number as a machine word.
    pub fn to_u128(&self) -> (r: u128)
        requires
            self@ <= u128::MAX,
        ensures
            r == self@,
    {
        let mut r: u128 = 0;
        let mut j: usize = self.bits.len();
        assert(self.bits@.skip(j as int) =~= Seq::<bool>::empty());
        assert(self.bits@.skip(0) =~= self.bits@);
        while j > 0
            invariant
                j <= self.bits@.len(),
                r == bits_value(self.bits@.skip(j as int)),
                bits_value(self.bits@) <= u128::MAX,
            decreases j,
        {
            j -= 1;
            proof {
                bits_from(self.bits@, j as int);
                tail_is_less(self.bits@, j as int);
            }
            r = 2 * r + if self.bits[j] {
                1
            } else {
                0
            };
        }
        assert(self.bits@.skip(0) =~= self.bits@);
        r
    }

    /// The same number once more.
    pub fn copy(&self) -> (r: Natural)
        ensures
            r@ == self@,
    {
        let mut bits: Vec<bool> = Vec::new();
        for i in 0..self.bits.len()
            invariant
                bits@ =~= self.bits@.take(i as int),
        {
            bits.push(self.bits[i]);
        }
        assert(bits@ =~= self.bits@);
        Natural { bits }
    }

    /// Whether the number is zero.
    pub fn is_zero(&self) -> (r: bool)
        ensures
            r == (self@ == 0),
    {
        for i in 0..self.bits.len()
            invariant
                bits_value(self.bits@.take(i as int)) == 0,
        {
            proof {
                one_more_bit(self.bits@, i as int);
            }
            if self.bits[i] {
                proof {
                    two_to_positive(i as nat);
                    head_is_less(self.bits@, i + 1);
                }
                return false;
            }
        }
        assert(self.bits@.take(self.bits@.len() as int) =~= self.bits@);
        true
    }

    /// Whether the number is odd.
    pub fn is_odd(&self) -> (r: bool)
        ensures
            r == (self@ % 2 == 1),
    {
        if self.bits.len() == 0 {
            return false;
        }
        proof {
            bits_from(self.bits@, 0);
            assert(self.bits@.skip(0) =~= self.bits@);
        }
        self.bits[0]
    }

    /// Twice the number and one more or not.
    fn with_low_bit(&self, bit: bool) -> (r: Natural)
        ensures
            r@ == 2 * self@ + bit_worth(bit, 1),
    {
        let mut bits: Vec<bool> = Vec::new();
        bits.push(bit);
        for i in 0..self.bits.len()
            invariant
                bits@ =~= seq![bit] + self.bits@.take(i as int),
        {
            bits.push(self.bits[i]);
        }
        assert(bits@ =~= seq![bit] + self.bits@);
        proof {
            bit_below(bit, self.bits@);
        }
        Natural { bits }
    }

    /// Twice the number.
    pub fn doubled(&self) -> (r: Natural)
        ensures
            r@ == 2 * self@,
    {
        self.with_low_bit(false)
    }

    /// The number times a power of two.
    pub fn shifted(&self, n: usize) -> (r: Natural)
        ensures
            r@ == two_to(n as nat) * self@,
    {
        let mut bits: Vec<bool> = Vec::new();
        for i in 0..n
            invariant
                bits@ =~= Seq::new(i as nat, |k: int| false),
        {
            bits.push(false);
        }
        let ghost zeros = bits@;
        for i in 0..self.bits.len()
            invariant
                bits@ =~= zeros + self.bits@.take(i as int),
        {
            bits.push(self.bits[i]);
        }
        assert(bits@ =~= zeros + self.bits@);
        proof {
            zeros_below(n as nat, self.bits@);
        }
        Natural { bits }
    }

    /// The digit at a position, zero behind the last one.
    fn bit(&self, i: usize) -> (r: bool)
        ensures
            r == (i < self.bits@.len() && self.bits@[i as int]),
    {
        i < self.bits.len() && self.bits[i]
    }

    /// The sum.
    pub fn plus(&self, other: &Natural) -> (r: Natural)
        ensures
            r@ == self@ + other@,
    {
        let n: usize = if self.bits.len() > other.bits.len() {
            self.bits.len()
        } else {
            other.bits.len()
        };
        let mut bits: Vec<bool> = Vec::new();
        let mut carry: bool = false;
        for i in 0..n
            invariant
                n >= self.bits@.len(),
                n >= other.bits@.len(),
                bits@.len() == i,
                bits_value(bits@) + bit_worth(carry, two_to(i as nat)) == value_below(
                    self.bits@,
                    i as int,
                ) + value_below(other.bits@, i as int),
        {
            let a: bool = self.bit(i);
            let b: bool = other.bit(i);
            let ghost before = bits@;
            proof {
                one_more_below(self.bits@, i as int);
                one_more_below(other.bits@, i as int);
            }
            bits.push((a != b) != carry);
            assert(bits@.drop_last() =~= before);
            carry = (a && b) || (carry && (a || b));
        }
        let ghost before = bits@;
        if carry {
            bits.push(true);
            assert(bits@.drop_last() =~= before);
        }
        proof {
            all_below(self.bits@, n as int);
            all_below(other.bits@, n as int);
        }
        Natural { bits }
    }

    /// Whether the number is less than another.
    pub fn less(&self, other: &Natural) -> (r: bool)
        ensures
            r == (self@ < other@),
    {
        let n: usize = if self.bits.len() > other.bits.len() {
            self.bits.len()
        } else {
            other.bits.len()
        };
        let mut r: bool = false;
        for i in 0..n
            invariant
                n >= self.bits@.len(),
                n >= other.bits@.len(),
                r == (value_below(self.bits@, i as int) < value_below(other.bits@, i as int)),
        {
            let a: bool = self.bit(i);
            let b: bool = other.bit(i);
            proof {
                one_more_below(self.bits@, i as int);
                one_more_below(other.bits@, i as int);
                below_bound(self.bits@, i as int);
                below_bound(other.bits@, i as int);
            }
            if a != b {
                r = b;
            }
        }
        proof {
            all_below(self.bits@, n as int);
            all_below(other.bits@, n as int);
        }
        r
    }

    /// The difference.
    pub fn minus(&self, other: &Natural) -> (r: Natural)
        requires
            self@ >= other@,
        ensures
            r@ == self@ - other@,
    {
        let n: usize = if self.bits.len() > other.bits.len() {
            self.bits.len()
        } else {
            other.bits.len()
        };
        let mut bits: Vec<bool> = Vec::new();
        let mut borrow: bool = false;
        for i in 0..n
            invariant
                n >= self.bits@.len(),
                n >= other.bits@.len(),
                bits@.len() == i,
                value_below(self.bits@, i as int) + bit_worth(borrow, two_to(i as nat))
                    == bits_value(bits@) + value_below(other.bits@, i as int),
        {
            let a: bool = self.bit(i);
            let b: bool = other.bit(i);
            let ghost before = bits@;
            proof {
                one_more_below(self.bits@, i as int);
                one_more_below(other.bits@, i as int);
            }
            bits.push((a != b) != borrow);
            assert(bits@.drop_last() =~= before);
            borrow = (!a && b) || (borrow && (!a || b));
        }
        proof {
            all_below(self.bits@, n as int);
            all_below(other.bits@, n as int);
            bits_bound(bits@);
        }
        Natural { bits }
    }

    /// The product.
    pub fn times(&self, other: &Natural) -> (r: Natural)
        ensures
            r@ == self@ * other@,
    {
        let mut r: Natural = Natural { bits: Vec::new() };
        let mut j: usize = other.bits.len();
        assert(other.bits@.skip(j as int) =~= Seq::<bool>::empty());
        assert(self@ * 0 == 0);
        while j > 0
            invariant
                j <= other.bits@.len(),
                r@ == self@ * bits_value(other.bits@.skip(j as int)),
            decreases j,
        {
            j -= 1;
            let ghost v = bits_value(other.bits@.skip(j + 1));
            proof {
                bits_from(other.bits@, j as int);
                let a = self@;
                assert(a * (2 * v) == 2 * (a * v)) by (nonlinear_arith);
                assert(a * (2 * v + 1) == 2 * (a * v) + a) by (nonlinear_arith);
            }
            r = r.doubled();
            if other.bits[j] {
                r = r.plus(self);
            }
        }
        assert(other.bits@.skip(0) =~= other.bits@);
        r
    }

    /// The quotient and the remainder.
    pub fn divide(&self, other: &Natural) -> (r: (Natural, Natural))
        requires
            other@ > 0,
        ensures
            r.0@ == self@ / other@,
            r.1@ == self@ % other@,
    {
        let mut q: Natural = Natural { bits: Vec::new() };
        let mut rest: Natural = Natural { bits: Vec::new() };
        let mut j: usize = self.bits.len();
        assert(self.bits@.skip(j as int) =~= Seq::<bool>::empty());
        assert(0 * other@ == 0);
        while j > 0
            invariant
                j <= self.bits@.len(),
                other@ > 0,
                rest@ < other@,
                q@ * other@ + rest@ == bits_value(self.bits@.skip(j as int)),
            decreases j,
        {
            j -= 1;
            proof {
                bits_from(self.bits@, j as int);
                let (a, d) = (q@, other@);
                assert((2 * a) * d == 2 * (a * d)) by (nonlinear_arith);
                assert((2 * a + 1) * d == 2 * (a * d) + d) by (nonlinear_arith);
            }
            rest = rest.with_low_bit(self.bits[j]);
            if rest.less(other) {
                q = q.with_low_bit(false);
            } else {
                rest = rest.minus(other);
                q = q.with_low_bit(true);
            }
        }
        assert(self.bits@.skip(0) =~= self.bits@);
        proof {
            vstd::arithmetic::div_mod::lemma_fundamental_div_mod_converse(
                self@ as int,
                other@ as int,
                q@ as int,
                rest@ as int,
            );
        }
        (q, rest)
    }

    /// The number in decimal.
    pub fn text(&self) -> (s: String)
        ensures
            s@ == decimal(self@),
        decreases self@,
    {
        let ten: Natural = Natural::from_u128(10);
        let (q, r): (Natural, Natural) = self.divide(&ten);
        let digit: char = digit_char(r.to_u128());
        if q.is_zero() {
            let mut s = String::new();
            s.push(digit);
            assert(s@ =~= decimal(self@));
            s
        } else {
            let mut s: String = q.text();
            s.push(digit);
            s
        }
    }
}

/// A digit.
fn digit_char(d: u128) -> (c: char)
    requires
        d < 10,
    ensures
        c as nat == 48 + d,
{
    (48 + d as u8) as char
}

/// The number that the digits below a position write.
spec fn value_below(bits: Seq<bool>, i: int) -> nat {
    if i <= bits.len() {
        bits_value(bits.take(i))
    } else {
        bits_value(bits)
    }
}

/// One more digit, zero behind the last one.
proof fn one_more_below(bits: Seq<bool>, i: int)
    requires
        0 <= i,
    ensures
        value_below(bits, i + 1) == value_below(bits, i) + bit_worth(
            i < bits.len() && bits[i],
            two_to(i as nat),
        ),
        two_to((i + 1) as nat) == 2 * two_to(i as nat),
{
    if i < bits.len() {
        one_more_bit(bits, i);
    } else {
        assert(bits.take(bits.len() as int) =~= bits);
    }
}

/// The digits below a position write less than a one there.
proof fn below_bound(bits: Seq<bool>, i: int)
    requires
        0 <= i,
    ensures
        value_below(bits, i) < two_to(i as nat),
    decreases i,
{
    if i <= bits.len() {
        bits_bound(bits.take(i));
    } else {
        below_bound(bits, i - 1);
        assert(bits.take(bits.len() as int) =~= bits);
    }
}

/// All digits are below a position behind the last one.
proof fn all_below(bits: Seq<bool>, i: int)
    requires
        i >= bits.len(),
    ensures
        value_below(bits, i) == bits_value(bits),
{
    assert(bits.take(bits.len() as int) =~= bits);
}

proof fn two_to_positive(n: nat)
    ensures
        two_to(n) > 0,
    decreases n,
{
    if n > 0 {
        two_to_positive((n - 1) as nat);
    }
}

/// The first digits write no more than all.
proof fn head_is_less(bits: Seq<bool>, n: int)
    requires
        0 <= n <= bits.len(),
    ensures
        bits_value(bits.take(n)) <= bits_value(bits),
    decreases bits.len() - n,
{
    if n < bits.len() {
        one_more_bit(bits, n);
        head_is_less(bits, n + 1);
    } else {
        assert(bits.take(n) =~= bits);
    }
}

/// The digits from a position on write no more than all.
proof fn tail_is_less(bits: Seq<bool>, j: int)
    requires
        0 <= j <= bits.len(),
    ensures
        bits_value(bits.skip(j)) <= bits_value(bits),
    decreases j,
{
    if j > 0 {
        bits_from(bits, j - 1);
        tail_is_less(bits, j - 1);
    } else {
        assert(bits.skip(0) =~= bits);
    }
}

} // verus!
