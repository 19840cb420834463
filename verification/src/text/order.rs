//! Equality and order of strings.

use vstd::prelude::*;
use vstd::string::*;

use crate::text::compose::texts;

verus! {

/// The order of strings: by the first character that differs, a proper prefix before what
/// extends it.
pub open spec fn text_lt(a: Seq<char>, b: Seq<char>) -> bool
    decreases a.len(),
{
    if b.len() == 0 {
        false
    } else if a.len() == 0 {
        true
    } else if a[0] != b[0] {
        (a[0] as int) < (b[0] as int)
    } else {
        text_lt(a.drop_first(), b.drop_first())
    }
}

/// `a` comes before `b` or is equal to it.
pub open spec fn text_le(a: Seq<char>, b: Seq<char>) -> bool {
    a == b || text_lt(a, b)
}

/// No string comes before itself.
pub proof fn text_lt_irreflexive(a: Seq<char>)
    ensures
        !text_lt(a, a),
    decreases a.len(),
{
    if a.len() > 0 {
        text_lt_irreflexive(a.drop_first());
    }
}

/// The order is transitive.
pub proof fn text_lt_transitive(a: Seq<char>, b: Seq<char>, c: Seq<char>)
    requires
        text_lt(a, b),
        text_lt(b, c),
    ensures
        text_lt(a, c),
    decreases a.len(),
{
    if a.len() > 0 && a[0] == b[0] && b[0] == c[0] {
        text_lt_transitive(a.drop_first(), b.drop_first(), c.drop_first());
    }
}

/// Of two different strings one comes before the other.
pub proof fn text_lt_total(a: Seq<char>, b: Seq<char>)
    ensures
        a == b || text_lt(a, b) || text_lt(b, a),
    decreases a.len(),
{
    if a.len() > 0 && b.len() > 0 && a[0] == b[0] {
        text_lt_total(a.drop_first(), b.drop_first());
        if a.drop_first() == b.drop_first() {
            assert(a =~= seq![a[0]] + a.drop_first());
            assert(b =~= seq![b[0]] + b.drop_first());
        }
    } else if a.len() == 0 && b.len() == 0 {
        assert(a =~= b);
    }
}

/// Of two strings at most one comes before the other.
pub proof fn text_lt_asymmetric(a: Seq<char>, b: Seq<char>)
    requires
        text_lt(a, b),
    ensures
        !text_lt(b, a),
        a != b,
{
    if text_lt(b, a) {
        text_lt_transitive(a, b, a);
    }
    text_lt_irreflexive(a);
}

/// Whether two strings hold the same characters.
pub fn text_eq(a: &str, b: &str) -> (r: bool)
    ensures
        r == (a@ == b@),
{
    let mut x = a.chars();
    let mut y = b.chars();
    let ghost mut n: int = 0;
    loop
        invariant
            0 <= n <= a@.len(),
            n <= b@.len(),
            a@.take(n) == b@.take(n),
            vstd::std_specs::iter::IteratorSpec::obeys_prophetic_iter_laws(&x),
            vstd::std_specs::iter::IteratorSpec::obeys_prophetic_iter_laws(&y),
            vstd::std_specs::iter::IteratorSpec::remaining(&x) == a@.skip(n),
            vstd::std_specs::iter::IteratorSpec::remaining(&y) == b@.skip(n),
        decreases a@.len() - n,
    {
        let c: Option<char> = x.next();
        let d: Option<char> = y.next();
        match (c, d) {
            (Some(p), Some(q)) => {
                if p != q {
                    assert(a@[n] == p && b@[n] == q);
                    return false;
                }
                proof {
                    assert(a@.take(n + 1) =~= a@.take(n).push(p));
                    assert(b@.take(n + 1) =~= b@.take(n).push(q));
                    assert(a@.skip(n).drop_first() =~= a@.skip(n + 1));
                    assert(b@.skip(n).drop_first() =~= b@.skip(n + 1));
                    n = n + 1;
                }
            },
            (None, None) => {
                assert(a@ =~= a@.take(n));
                assert(b@ =~= b@.take(n));
                return true;
            },
            _ => {
                return false;
            },
        }
    }
}

/// Whether `a` comes before `b`.
pub fn text_less(a: &str, b: &str) -> (r: bool)
    ensures
        r == text_lt(a@, b@),
{
    let mut x = a.chars();
    let mut y = b.chars();
    let ghost mut n: int = 0;
    assert(a@.skip(0) =~= a@ && b@.skip(0) =~= b@);
    loop
        invariant
            0 <= n <= a@.len(),
            n <= b@.len(),
            text_lt(a@, b@) == text_lt(a@.skip(n), b@.skip(n)),
            vstd::std_specs::iter::IteratorSpec::obeys_prophetic_iter_laws(&x),
            vstd::std_specs::iter::IteratorSpec::obeys_prophetic_iter_laws(&y),
            vstd::std_specs::iter::IteratorSpec::remaining(&x) == a@.skip(n),
            vstd::std_specs::iter::IteratorSpec::remaining(&y) == b@.skip(n),
        decreases a@.len() - n,
    {
        let c: Option<char> = x.next();
        let d: Option<char> = y.next();
        match (c, d) {
            (Some(p), Some(q)) => {
                if p != q {
                    return p < q;
                }
                proof {
                    assert(a@.skip(n).drop_first() =~= a@.skip(n + 1));
                    assert(b@.skip(n).drop_first() =~= b@.skip(n + 1));
                    n = n + 1;
                }
            },
            (None, Some(_)) => {
                return true;
            },
            _ => {
                return false;
            },
        }
    }
}

/// The order of lists of texts: by the first text that differs, a proper prefix before what
/// extends it.
pub open spec fn list_lt(a: Seq<Seq<char>>, b: Seq<Seq<char>>) -> bool
    decreases a.len(),
{
    if b.len() == 0 {
        false
    } else if a.len() == 0 {
        true
    } else if a[0] != b[0] {
        text_lt(a[0], b[0])
    } else {
        list_lt(a.drop_first(), b.drop_first())
    }
}

/// No list comes before itself.
pub proof fn list_lt_irreflexive(a: Seq<Seq<char>>)
    ensures
        !list_lt(a, a),
    decreases a.len(),
{
    if a.len() > 0 {
        list_lt_irreflexive(a.drop_first());
    }
}

/// The order of lists is transitive.
pub proof fn list_lt_transitive(a: Seq<Seq<char>>, b: Seq<Seq<char>>, c: Seq<Seq<char>>)
    requires
        list_lt(a, b),
        list_lt(b, c),
    ensures
        list_lt(a, c),
    decreases a.len(),
{
    if a.len() > 0 {
        if a[0] == b[0] && b[0] == c[0] {
            list_lt_transitive(a.drop_first(), b.drop_first(), c.drop_first());
        } else if a[0] != b[0] && b[0] != c[0] {
            text_lt_transitive(a[0], b[0], c[0]);
            if a[0] == c[0] {
                text_lt_irreflexive(a[0]);
            }
        }
    }
}

/// Of two different lists one comes before the other.
pub proof fn list_lt_total(a: Seq<Seq<char>>, b: Seq<Seq<char>>)
    ensures
        a == b || list_lt(a, b) || list_lt(b, a),
    decreases a.len(),
{
    if a.len() > 0 && b.len() > 0 {
        if a[0] == b[0] {
            list_lt_total(a.drop_first(), b.drop_first());
            if a.drop_first() == b.drop_first() {
                assert(a =~= seq![a[0]] + a.drop_first());
                assert(b =~= seq![b[0]] + b.drop_first());
            }
        } else {
            text_lt_total(a[0], b[0]);
        }
    } else if a.len() == 0 && b.len() == 0 {
        assert(a =~= b);
    }
}

/// Whether the list `a` comes before the list `b`.
pub fn list_less(a: &Vec<String>, b: &Vec<String>) -> (r: bool)
    ensures
        r == list_lt(texts(a@), texts(b@)),
{
    let ghost x = texts(a@);
    let ghost y = texts(b@);
    let mut i: usize = 0;
    assert(x.skip(0) =~= x && y.skip(0) =~= y);
    while i < a.len() && i < b.len()
        invariant
            i <= a@.len(),
            i <= b@.len(),
            x == texts(a@),
            y == texts(b@),
            list_lt(x, y) == list_lt(x.skip(i as int), y.skip(i as int)),
        decreases a@.len() - i,
    {
        proof {
            assert(x.skip(i as int)[0] == a@[i as int]@);
            assert(y.skip(i as int)[0] == b@[i as int]@);
            assert(x.skip(i as int).drop_first() =~= x.skip(i + 1));
            assert(y.skip(i as int).drop_first() =~= y.skip(i + 1));
        }
        if !text_eq(a[i].as_str(), b[i].as_str()) {
            return text_less(a[i].as_str(), b[i].as_str());
        }
        i += 1;
    }
    i < b.len()
}

} // verus!
