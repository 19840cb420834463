//! Sums.

use vstd::prelude::*;

use crate::gather::gathered;
use crate::natural::Natural;

verus! {

/// The sum of numbers.
pub open spec fn sum_of(s: Seq<nat>) -> nat
    decreases s.len(),
{
    if s.len() == 0 {
        0
    } else {
        sum_of(s.drop_last()) + s.last()
    }
}

/// More numbers have no smaller sum.
pub proof fn sum_grows(part: spec_fn(int) -> Seq<nat>, m: nat, n: nat)
    requires
        m <= n,
    ensures
        sum_of(gathered(part, m)) <= sum_of(gathered(part, n)),
    decreases n,
{
    if m < n {
        sum_grows(part, m, (n - 1) as nat);
        sum_joins(gathered(part, (n - 1) as nat), part(n - 1));
    }
}

/// The sum of numbers and more numbers.
pub proof fn sum_joins(a: Seq<nat>, b: Seq<nat>)
    ensures
        sum_of(a + b) == sum_of(a) + sum_of(b),
    decreases b.len(),
{
    if b.len() == 0 {
        assert(a + b =~= a);
    } else {
        assert((a + b).drop_last() =~= a + b.drop_last());
        sum_joins(a, b.drop_last());
    }
}

/// Taking one number out takes it off the sum.
pub proof fn sum_without(s: Seq<nat>, p: int)
    requires
        0 <= p < s.len(),
    ensures
        sum_of(s.remove(p)) + s[p] == sum_of(s),
    decreases s.len(),
{
    if p == s.len() - 1 {
        assert(s.remove(p) =~= s.drop_last());
    } else {
        sum_without(s.drop_last(), p);
        assert(s.remove(p).drop_last() =~= s.drop_last().remove(p));
        assert(s.remove(p).last() == s.last());
    }
}

/// The sum of the first numbers is no more than that of all.
pub proof fn sum_of_first(s: Seq<nat>, n: int)
    requires
        0 <= n <= s.len(),
    ensures
        sum_of(s.take(n)) <= sum_of(s),
{
    sum_joins(s.take(n), s.skip(n));
    assert(s.take(n) + s.skip(n) =~= s);
}

/// `a * b / c` rounded down; nothing where it is more than `limit`.
pub fn product_over(a: u128, b: u128, c: u128, limit: u128) -> (r: Option<u128>)
    requires
        0 < c,
    ensures
        ({
            let exact = (a as nat * b as nat) / (c as nat);
            match r {
                Some(q) => q == exact && q <= limit,
                None => exact > limit,
            }
        }),
{
    let product: Natural = Natural::from_u128(a).times(&Natural::from_u128(b));
    let q: Natural = product.divide(&Natural::from_u128(c)).0;
    if Natural::from_u128(limit).less(&q) {
        None
    } else {
        Some(q.to_u128())
    }
}

} // verus!
