//! Lists put together from parts.

use vstd::prelude::*;

use crate::text::compose::texts;

verus! {

/// The parts `0..n` one after the other.
pub open spec fn gathered<A>(part: spec_fn(int) -> Seq<A>, n: nat) -> Seq<A>
    decreases n,
{
    if n == 0 {
        Seq::empty()
    } else {
        gathered(part, (n - 1) as nat) + part(n - 1)
    }
}

/// Every element that is put together stands in one of the parts.
pub proof fn gathered_element<A>(part: spec_fn(int) -> Seq<A>, n: nat, x: int) -> (r: (int, int))
    requires
        0 <= x < gathered(part, n).len(),
    ensures
        0 <= r.0 < n,
        0 <= r.1 < part(r.0).len(),
        part(r.0)[r.1] == gathered(part, n)[x],
    decreases n,
{
    let before = gathered(part, (n - 1) as nat);
    if x < before.len() {
        gathered_element(part, (n - 1) as nat, x)
    } else {
        (n - 1, x - before.len())
    }
}

/// Every element of a part is put in.
pub proof fn gathered_holds<A>(part: spec_fn(int) -> Seq<A>, n: nat, i: int, j: int) -> (x: int)
    requires
        0 <= i < n,
        0 <= j < part(i).len(),
    ensures
        0 <= x < gathered(part, n).len(),
        gathered(part, n)[x] == part(i)[j],
    decreases n,
{
    let before = gathered(part, (n - 1) as nat);
    if i < n - 1 {
        gathered_holds(part, (n - 1) as nat, i, j)
    } else {
        before.len() + j
    }
}

/// Parts that agree make up the same list.
pub proof fn gathered_same<A>(p: spec_fn(int) -> Seq<A>, q: spec_fn(int) -> Seq<A>, n: nat)
    requires
        forall|i: int| 0 <= i < n ==> #[trigger] p(i) == q(i),
    ensures
        gathered(p, n) == gathered(q, n),
    decreases n,
{
    if n > 0 {
        gathered_same(p, q, (n - 1) as nat);
        assert(p(n - 1) == q(n - 1));
    }
}

/// Adds strings to a list of strings.
pub fn append_texts(v: &mut Vec<String>, more: Vec<String>)
    ensures
        final(v)@ == old(v)@ + more@,
        texts(final(v)@) == texts(old(v)@) + texts(more@),
{
    let mut rest: Vec<String> = more;
    v.append(&mut rest);
    assert(texts(v@) =~= texts(old(v)@) + texts(more@));
}

/// The values of a list from the last to the first.
pub fn reversed<T>(v: Vec<T>) -> (r: Vec<T>)
    ensures
        r@ == v@.reverse(),
{
    let ghost all = v@;
    let mut rest: Vec<T> = v;
    let mut r: Vec<T> = Vec::new();
    assert(all.take(all.len() as int) =~= all);
    while rest.len() > 0
        invariant
            rest@.len() <= all.len(),
            rest@ == all.take(rest@.len() as int),
            r@ =~= all.skip(rest@.len() as int).reverse(),
        decreases rest@.len(),
    {
        let ghost left = rest@;
        assert(left.drop_last() =~= all.take(left.len() - 1));
        if let Some(x) = rest.pop() {
            r.push(x);
            assert(all.skip(left.len() - 1) =~= seq![left.last()] + all.skip(left.len() as int));
        }
    }
    assert(all.skip(0) =~= all);
    r
}

} // verus!
